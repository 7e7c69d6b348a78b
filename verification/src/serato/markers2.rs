//! `Serato Markers2` GEOB decoder: hot cues and saved loops.
//!
//! The GEOB payload is a 2-byte version (`0x01 0x01`) followed by a base64
//! blob (often newline-wrapped, NUL-padded). The decoded blob is a 2-byte
//! version, then a sequence of entries `name\0 u32 body_len body[body_len]`.
//!
//! * `CUE`  : `00 index(1) position_be_u32_ms 00 color(3) 00 00 name\0`
//! * `LOOP` : `00 index(1) start_be_u32_ms end_be_u32_ms ...trailer... name\0`
//!
//! Other entries (`COLOR`, `BPMLOCK`, `FLIP`) are skipped. Positions are
//! milliseconds. Any framing error ends the scan.

use vstd::prelude::*;
use crate::text::{trim, lossy_text, string_from_utf8_lossy, chars_of, trim_bounds, string_of, copy_range};
use crate::serato::{b64_decoded, b64_decode, b64_text, strip_b64_noise};
use crate::serato::database::{be32, read_be_u32, copy_bytes};

verus! {

/// A Serato hot cue.
#[derive(Debug, Clone, PartialEq)]
pub struct SeratoCue {
    /// Pad / hot-cue slot index.
    pub index: u8,
    /// Cue position in milliseconds.
    pub position_ms: u32,
    /// Cue label, if any.
    pub name: Option<String>,
}

/// A Serato saved loop.
#[derive(Debug, Clone, PartialEq)]
pub struct SeratoLoop {
    /// Loop slot index.
    pub index: u8,
    /// Loop start in milliseconds.
    pub start_ms: u32,
    /// Loop end in milliseconds.
    pub end_ms: u32,
    /// Loop label, if any.
    pub name: Option<String>,
}

/// Everything `Serato Markers2` carries that the library imports.
#[derive(Debug, Default, Clone, PartialEq)]
pub struct SeratoMarkers {
    /// Hot cues, in stored order.
    pub cues: Vec<SeratoCue>,
    /// Saved loops, in stored order.
    pub loops: Vec<SeratoLoop>,
}

pub struct CueFields {
    pub index: u8,
    pub position_ms: u32,
    pub name: Option<Seq<char>>,
}

pub struct LoopFields {
    pub index: u8,
    pub start_ms: u32,
    pub end_ms: u32,
    pub name: Option<Seq<char>>,
}

pub open spec fn opt_view(o: Option<String>) -> Option<Seq<char>> {
    match o {
        Some(s) => Some(s@),
        None => None,
    }
}

impl View for SeratoCue {
    type V = CueFields;

    open spec fn view(&self) -> CueFields {
        CueFields { index: self.index, position_ms: self.position_ms, name: opt_view(self.name) }
    }
}

impl View for SeratoLoop {
    type V = LoopFields;

    open spec fn view(&self) -> LoopFields {
        LoopFields {
            index: self.index,
            start_ms: self.start_ms,
            end_ms: self.end_ms,
            name: opt_view(self.name),
        }
    }
}

/// Index of the first NUL byte.
pub open spec fn first_nul(s: Seq<u8>) -> Option<int>
    decreases s.len(),
{
    if s.len() == 0 {
        None
    } else if s[0] == 0 {
        Some(0)
    } else {
        match first_nul(s.drop_first()) {
            Some(i) => Some(i + 1),
            None => None,
        }
    }
}

pub proof fn lemma_first_nul(s: Seq<u8>)
    ensures
        first_nul(s) matches Some(i) ==> 0 <= i < s.len() && s[i] == 0 && (forall|k: int|
            0 <= k < i ==> s[k] != 0),
        first_nul(s) is None ==> forall|k: int| 0 <= k < s.len() ==> s[k] != 0,
    decreases s.len(),
{
    if s.len() > 0 && s[0] != 0 {
        lemma_first_nul(s.drop_first());
        assert forall|k: int| 0 < k < s.len() implies s[k] == s.drop_first()[k - 1] by {}
    }
}

/// The NUL-terminated string at `at` decoded as UTF-8 (lossily when it is
/// not valid UTF-8), trimmed; `None` when
/// `at` is past the end or the text is blank.
pub open spec fn cstr_of(b: Seq<u8>, at: int) -> Option<Seq<char>> {
    if at > b.len() {
        None
    } else {
        let slice = b.subrange(at, b.len() as int);
        let end = match first_nul(slice) {
            Some(i) => i,
            None => slice.len() as int,
        };
        let t = trim(lossy_text(slice.take(end)));
        if t.len() == 0 {
            None
        } else {
            Some(t)
        }
    }
}

/// `00 index(1) position(4) 00 color(3) 00 00 name\0`
pub open spec fn cue_of(body: Seq<u8>) -> Option<CueFields> {
    if body.len() < 6 {
        None
    } else {
        Some(CueFields { index: body[1], position_ms: be32(body, 2) as u32, name: cstr_of(body, 12) })
    }
}

/// `00 index(1) start(4) end(4) ...trailer... name\0`: the name is read at
/// offset 20 (past a 10-byte colour / lock trailer), else at offset 10.
pub open spec fn loop_of(body: Seq<u8>) -> Option<LoopFields> {
    if body.len() < 10 {
        None
    } else {
        Some(
            LoopFields {
                index: body[1],
                start_ms: be32(body, 2) as u32,
                end_ms: be32(body, 6) as u32,
                name: match cstr_of(body, 20) {
                    Some(n) => Some(n),
                    None => cstr_of(body, 10),
                },
            },
        )
    }
}

pub open spec fn name_cue() -> Seq<u8> {
    seq![67u8, 85u8, 69u8]
}

pub open spec fn name_loop() -> Seq<u8> {
    seq![76u8, 79u8, 79u8, 80u8]
}

/// The cues and loops of the entries from byte `pos` on. An entry is a
/// NUL-terminated name, a big-endian body length and the body; an empty
/// name ends the list, as does any truncation.
pub open spec fn markers_from(data: Seq<u8>, pos: int) -> (Seq<CueFields>, Seq<LoopFields>)
    decreases data.len() - pos,
{
    if pos < 0 || pos >= data.len() {
        (Seq::empty(), Seq::empty())
    } else {
        match first_nul(data.subrange(pos, data.len() as int)) {
            None => (Seq::empty(), Seq::empty()),
            Some(n) => {
                let p = pos + n + 1;
                if n == 0 || p + 4 > data.len() || p + 4 + be32(data, p) > data.len() {
                    (Seq::empty(), Seq::empty())
                } else {
                    let name = data.subrange(pos, pos + n);
                    let body = data.subrange(p + 4, p + 4 + be32(data, p));
                    proof {
                        lemma_first_nul(data.subrange(pos, data.len() as int));
                    }
                    let rest = markers_from(data, p + 4 + be32(data, p));
                    if name == name_cue() && cue_of(body) is Some {
                        (seq![cue_of(body).unwrap()] + rest.0, rest.1)
                    } else if name == name_loop() && loop_of(body) is Some {
                        (rest.0, seq![loop_of(body).unwrap()] + rest.1)
                    } else {
                        rest
                    }
                }
            },
        }
    }
}

/// The entries of a decoded blob, after its 2-byte version.
pub open spec fn markers_of(data: Seq<u8>) -> (Seq<CueFields>, Seq<LoopFields>) {
    markers_from(data, if data.len() < 2 { data.len() as int } else { 2 })
}

/// The decoded blob of a GEOB payload: the base64 text after the 2-byte
/// version, decoded; `None` when there is nothing decodable.
pub open spec fn blob_of(payload: Seq<u8>) -> Option<Seq<u8>> {
    if payload.len() <= 2 {
        None
    } else {
        match b64_decoded(b64_text(payload.subrange(2, payload.len() as int))) {
            Some(d) => if d.len() > 0 {
                Some(d)
            } else {
                None
            },
            None => None,
        }
    }
}

/// What a `Serato Markers2` payload decodes to.
pub open spec fn markers_spec(payload: Seq<u8>) -> (Seq<CueFields>, Seq<LoopFields>) {
    match blob_of(payload) {
        Some(d) => markers_of(d),
        None => (Seq::empty(), Seq::empty()),
    }
}

/// Big-endian `u32` at `at`, if four bytes are there.
pub fn be_u32(b: &[u8], at: usize) -> (r: Option<u32>)
    ensures
        r.is_some() == (at + 4 <= b@.len()),
        r matches Some(v) ==> v as int == be32(b@, at as int),
{
    if at > b.len() || b.len() - at < 4 {
        None
    } else {
        Some(read_be_u32(b, at))
    }
}

fn find_nul(b: &[u8], from: usize) -> (r: Option<usize>)
    requires
        from <= b@.len(),
    ensures
        r.is_some() == first_nul(b@.subrange(from as int, b@.len() as int)).is_some(),
        r matches Some(i) ==> first_nul(b@.subrange(from as int, b@.len() as int)) == Some(
            i as int,
        ) && from + i < b@.len(),
{
    proof {
        lemma_first_nul(b@.subrange(from as int, b@.len() as int));
    }
    let mut i = from;
    while i < b.len()
        invariant
            from <= i <= b@.len(),
            first_nul(b@.subrange(from as int, b@.len() as int)) == match first_nul(
                b@.subrange(i as int, b@.len() as int),
            ) {
                Some(k) => Some(k + (i - from)),
                None => None,
            },
        decreases b.len() - i,
    {
        let ghost t = b@.subrange(i as int, b@.len() as int);
        proof {
            assert(t[0] == b@[i as int]);
            assert(t.drop_first() =~= b@.subrange(i + 1, b@.len() as int));
        }
        if b[i] == 0 {
            return Some(i - from);
        }
        i = i + 1;
    }
    None
}

/// The NUL-terminated UTF-8 string at `at`, trimmed; `None` if empty.
pub fn cstr(b: &[u8], at: usize) -> (r: Option<String>)
    ensures
        opt_view(r) == cstr_of(b@, at as int),
{
    if at > b.len() {
        return None;
    }
    let end = match find_nul(b, at) {
        Some(i) => at + i,
        None => b.len(),
    };
    let raw = copy_bytes(b, at, end);
    proof {
        let slice = b@.subrange(at as int, b@.len() as int);
        assert(slice.take(end - at) =~= b@.subrange(at as int, end as int));
    }
    let decoded = string_from_utf8_lossy(raw.as_slice());
    let v = chars_of(decoded.as_str());
    let (x, y) = trim_bounds(v.as_slice(), 0, v.len());
    proof {
        assert(v@.subrange(0, v@.len() as int) =~= v@);
    }
    if x == y {
        None
    } else {
        Some(string_of(copy_range(v.as_slice(), x, y).as_slice()))
    }
}

/// `00 index(1) position(4) 00 color(3) 00 00 name\0`
pub fn parse_cue(body: &[u8]) -> (r: Option<SeratoCue>)
    ensures
        r.is_some() == cue_of(body@).is_some(),
        r matches Some(c) ==> c@ == cue_of(body@).unwrap(),
{
    if body.len() < 2 {
        return None;
    }
    let index = body[1];
    let position_ms = match be_u32(body, 2) {
        Some(v) => v,
        None => {
            return None;
        },
    };
    let name = cstr(body, 12);
    Some(SeratoCue { index, position_ms, name })
}

/// `00 index(1) start(4) end(4) ...trailer... name\0`.
pub fn parse_loop(body: &[u8]) -> (r: Option<SeratoLoop>)
    ensures
        r.is_some() == loop_of(body@).is_some(),
        r matches Some(l) ==> l@ == loop_of(body@).unwrap(),
{
    if body.len() < 2 {
        return None;
    }
    let index = body[1];
    let start_ms = match be_u32(body, 2) {
        Some(v) => v,
        None => {
            return None;
        },
    };
    let end_ms = match be_u32(body, 6) {
        Some(v) => v,
        None => {
            return None;
        },
    };
    let name = match cstr(body, 20) {
        Some(n) => Some(n),
        None => cstr(body, 10),
    };
    Some(SeratoLoop { index, start_ms, end_ms, name })
}

pub open spec fn cues_view(v: Seq<SeratoCue>) -> Seq<CueFields> {
    v.map_values(|c: SeratoCue| c@)
}

pub open spec fn loops_view(v: Seq<SeratoLoop>) -> Seq<LoopFields> {
    v.map_values(|l: SeratoLoop| l@)
}

impl SeratoMarkers {
    pub open spec fn fields(&self) -> (Seq<CueFields>, Seq<LoopFields>) {
        (cues_view(self.cues@), loops_view(self.loops@))
    }
}

/// The cues and loops of a decoded blob.
pub fn parse_decoded(data: &[u8]) -> (r: SeratoMarkers)
    ensures
        r.fields() == markers_of(data@),
{
    let mut cues: Vec<SeratoCue> = Vec::new();
    let mut loops: Vec<SeratoLoop> = Vec::new();
    let mut pos: usize = if data.len() < 2 {
        data.len()
    } else {
        2
    };
    let ghost start = pos as int;
    proof {
        assert(cues_view(cues@) + markers_from(data@, start).0 =~= markers_from(data@, start).0);
        assert(loops_view(loops@) + markers_from(data@, start).1 =~= markers_from(data@, start).1);
    }
    while pos < data.len()
        invariant
            pos <= data@.len(),
            start == (if data@.len() < 2 { data@.len() as int } else { 2 }),
            markers_from(data@, start).0 == cues_view(cues@) + markers_from(data@, pos as int).0,
            markers_from(data@, start).1 == loops_view(loops@) + markers_from(data@, pos as int).1,
        ensures
            markers_from(data@, start).0 == cues_view(cues@),
            markers_from(data@, start).1 == loops_view(loops@),
        decreases data.len() - pos,
    {
        let ghost p0 = pos as int;
        let n = match find_nul(data, pos) {
            Some(n) => n,
            None => {
                proof {
                    assert(markers_from(data@, pos as int).0 =~= Seq::<CueFields>::empty());
                    assert(cues_view(cues@) + Seq::<CueFields>::empty() =~= cues_view(cues@));
                    assert(loops_view(loops@) + Seq::<LoopFields>::empty() =~= loops_view(loops@));
                }
                break;
            },
        };
        if n == 0 {
            proof {
                assert(cues_view(cues@) + Seq::<CueFields>::empty() =~= cues_view(cues@));
                assert(loops_view(loops@) + Seq::<LoopFields>::empty() =~= loops_view(loops@));
            }
            break;
        }
        let name_start = pos;
        let after = pos + n + 1;
        let len = match be_u32(data, after) {
            Some(v) => v as usize,
            None => {
                proof {
                    assert(cues_view(cues@) + Seq::<CueFields>::empty() =~= cues_view(cues@));
                    assert(loops_view(loops@) + Seq::<LoopFields>::empty() =~= loops_view(loops@));
                }
                break;
            },
        };
        let body_start = after + 4;
        if len > data.len() - body_start {
            proof {
                assert(cues_view(cues@) + Seq::<CueFields>::empty() =~= cues_view(cues@));
                assert(loops_view(loops@) + Seq::<LoopFields>::empty() =~= loops_view(loops@));
            }
            break;
        }
        let body_end = body_start + len;
        let body = copy_bytes(data, body_start, body_end);
        let ghost rest = markers_from(data@, body_end as int);
        let ghost name = data@.subrange(p0, p0 + n);
        let is_cue = n == 3 && data[name_start] == 67u8 && data[name_start + 1] == 85u8
            && data[name_start + 2] == 69u8;
        let is_loop = n == 4 && data[name_start] == 76u8 && data[name_start + 1] == 79u8
            && data[name_start + 2] == 79u8 && data[name_start + 3] == 80u8;
        proof {
            if is_cue {
                assert(name =~= name_cue());
            } else if n == 3 {
                assert(name[0] == data@[p0] && name[1] == data@[p0 + 1] && name[2] == data@[p0 + 2]);
                assert(name != name_cue());
            } else {
                assert(name.len() != name_cue().len());
            }
            if is_loop {
                assert(name =~= name_loop());
            } else if n == 4 {
                assert(name[0] == data@[p0] && name[1] == data@[p0 + 1] && name[2] == data@[p0 + 2] && name[3] == data@[p0 + 3]);
                assert(name != name_loop());
            } else {
                assert(name.len() != name_loop().len());
            }
        }
        let ghost pc = cues_view(cues@);
        let ghost pl = loops_view(loops@);
        if is_cue {
            match parse_cue(body.as_slice()) {
                Some(c) => {
                    cues.push(c);
                    proof {
                        assert(cues_view(cues@) =~= pc.push(c@));
                        assert(pc + (seq![c@] + rest.0) =~= pc.push(c@) + rest.0);
                    }
                },
                None => {},
            }
        } else if is_loop {
            match parse_loop(body.as_slice()) {
                Some(l) => {
                    loops.push(l);
                    proof {
                        assert(loops_view(loops@) =~= pl.push(l@));
                        assert(pl + (seq![l@] + rest.1) =~= pl.push(l@) + rest.1);
                    }
                },
                None => {},
            }
        }
        pos = body_end;
        proof {
            if pos >= data@.len() {
                assert(cues_view(cues@) + Seq::<CueFields>::empty() =~= cues_view(cues@));
                assert(loops_view(loops@) + Seq::<LoopFields>::empty() =~= loops_view(loops@));
            }
        }
    }
    SeratoMarkers { cues, loops }
}

/// Strip the 2-byte version header, gather the base64 text (ignoring white
/// space and NULs) and decode it; `None` if nothing decodable is there.
pub fn decode_base64_blob(payload: &[u8]) -> (r: Option<Vec<u8>>)
    ensures
        crate::serato::opt_bytes(r) == blob_of(payload@),
{
    if payload.len() <= 2 {
        return None;
    }
    let text = strip_b64_noise(payload, 2);
    match b64_decode(text.as_slice()) {
        Some(d) => if d.len() > 0 {
            Some(d)
        } else {
            None
        },
        None => None,
    }
}

/// Decode a `Serato Markers2` GEOB payload (the bytes of the GEOB frame,
/// including the leading version).
pub fn parse(payload: &[u8]) -> (r: SeratoMarkers)
    ensures
        r.fields() == markers_spec(payload@),
{
    match decode_base64_blob(payload) {
        Some(decoded) => parse_decoded(decoded.as_slice()),
        None => {
            let r = SeratoMarkers { cues: Vec::new(), loops: Vec::new() };
            proof {
                assert(cues_view(r.cues@) =~= Seq::<CueFields>::empty());
                assert(loops_view(r.loops@) =~= Seq::<LoopFields>::empty());
            }
            r
        },
    }
}

/// A later cue writes to the same slot as cue `i`, replacing it.
pub open spec fn cue_superseded(s: Seq<CueFields>, i: int) -> bool {
    exists|j: int| i < j < s.len() && (#[trigger] s[j]).index == s[i].index
}

/// The cues an import stores from index `i` on: each cue that no later cue
/// replaces, in order.
pub open spec fn stored_cues_from(s: Seq<CueFields>, i: int) -> Seq<CueFields>
    decreases s.len() - i,
{
    if i < 0 || i >= s.len() {
        Seq::empty()
    } else if cue_superseded(s, i) {
        stored_cues_from(s, i + 1)
    } else {
        seq![s[i]] + stored_cues_from(s, i + 1)
    }
}

/// A loop is stored only when it ends after it starts.
pub open spec fn loop_storable(l: LoopFields) -> bool {
    l.end_ms > l.start_ms
}

/// A later storable loop writes to the same slot as loop `i`, replacing it.
pub open spec fn loop_superseded(s: Seq<LoopFields>, i: int) -> bool {
    exists|j: int| i < j < s.len() && (#[trigger] s[j]).index == s[i].index && loop_storable(s[j])
}

/// The loops an import stores from index `i` on: each storable loop that no
/// later storable loop replaces, in order.
pub open spec fn stored_loops_from(s: Seq<LoopFields>, i: int) -> Seq<LoopFields>
    decreases s.len() - i,
{
    if i < 0 || i >= s.len() {
        Seq::empty()
    } else if !loop_storable(s[i]) || loop_superseded(s, i) {
        stored_loops_from(s, i + 1)
    } else {
        seq![s[i]] + stored_loops_from(s, i + 1)
    }
}

fn cue_superseded_exec(cues: &Vec<SeratoCue>, i: usize) -> (r: bool)
    requires
        i < cues@.len(),
    ensures
        r == cue_superseded(cues@.map_values(|c: SeratoCue| c@), i as int),
{
    let ghost v = cues@.map_values(|c: SeratoCue| c@);
    let n = cues.len();
    let mut j: usize = i + 1;
    while j < n
        invariant
            i < j <= cues@.len(),
            n == cues@.len(),
            v == cues@.map_values(|c: SeratoCue| c@),
            forall|k: int| i < k < j ==> (#[trigger] v[k]).index != v[i as int].index,
        decreases cues.len() - j,
    {
        if cues[j].index == cues[i].index {
            proof {
                assert(v[j as int].index == v[i as int].index);
            }
            return true;
        }
        j = j + 1;
    }
    false
}

fn loop_superseded_exec(loops: &Vec<SeratoLoop>, i: usize) -> (r: bool)
    requires
        i < loops@.len(),
    ensures
        r == loop_superseded(loops@.map_values(|l: SeratoLoop| l@), i as int),
{
    let ghost v = loops@.map_values(|l: SeratoLoop| l@);
    let n = loops.len();
    let mut j: usize = i + 1;
    while j < n
        invariant
            i < j <= loops@.len(),
            n == loops@.len(),
            v == loops@.map_values(|l: SeratoLoop| l@),
            forall|k: int| i < k < j ==> !((#[trigger] v[k]).index == v[i as int].index && loop_storable(v[k])),
        decreases loops.len() - j,
    {
        if loops[j].index == loops[i].index && loops[j].end_ms > loops[j].start_ms {
            proof {
                assert(v[j as int].index == v[i as int].index && loop_storable(v[j as int]));
            }
            return true;
        }
        j = j + 1;
    }
    false
}

/// The cues and loops an import stores for a track's markers: per slot the
/// last marker wins (a later write to the slot replaces an earlier one), and
/// a loop that does not end after its start is not stored, so it replaces
/// nothing either.
pub fn stored_markers(markers: &SeratoMarkers) -> (r: SeratoMarkers)
    ensures
        r.cues@.map_values(|c: SeratoCue| c@) == stored_cues_from(markers.cues@.map_values(|c: SeratoCue| c@), 0),
        r.loops@.map_values(|l: SeratoLoop| l@) == stored_loops_from(markers.loops@.map_values(|l: SeratoLoop| l@), 0),
{
    let ghost cv = markers.cues@.map_values(|c: SeratoCue| c@);
    let mut cues: Vec<SeratoCue> = Vec::new();
    let mut i: usize = 0;
    while i < markers.cues.len()
        invariant
            0 <= i <= markers.cues@.len(),
            cv == markers.cues@.map_values(|c: SeratoCue| c@),
            cues@.map_values(|c: SeratoCue| c@) + stored_cues_from(cv, i as int) == stored_cues_from(cv, 0),
        decreases markers.cues.len() - i,
    {
        let ghost before = cues@.map_values(|c: SeratoCue| c@);
        if !cue_superseded_exec(&markers.cues, i) {
            let c = SeratoCue {
                index: markers.cues[i].index,
                position_ms: markers.cues[i].position_ms,
                name: markers.cues[i].name.clone(),
            };
            cues.push(c);
            proof {
                assert(cues@.map_values(|c: SeratoCue| c@) =~= before.push(cv[i as int]));
                assert(before.push(cv[i as int]) + stored_cues_from(cv, i + 1) =~= before + (seq![cv[i as int]]
                    + stored_cues_from(cv, i + 1)));
            }
        }
        i = i + 1;
    }
    proof {
        assert(cues@.map_values(|c: SeratoCue| c@) + Seq::<CueFields>::empty() =~= cues@.map_values(|c: SeratoCue| c@));
    }
    let ghost lv = markers.loops@.map_values(|l: SeratoLoop| l@);
    let mut loops: Vec<SeratoLoop> = Vec::new();
    let mut k: usize = 0;
    while k < markers.loops.len()
        invariant
            0 <= k <= markers.loops@.len(),
            lv == markers.loops@.map_values(|l: SeratoLoop| l@),
            loops@.map_values(|l: SeratoLoop| l@) + stored_loops_from(lv, k as int) == stored_loops_from(lv, 0),
        decreases markers.loops.len() - k,
    {
        let ghost before = loops@.map_values(|l: SeratoLoop| l@);
        let storable = markers.loops[k].end_ms > markers.loops[k].start_ms;
        if storable && !loop_superseded_exec(&markers.loops, k) {
            let l = SeratoLoop {
                index: markers.loops[k].index,
                start_ms: markers.loops[k].start_ms,
                end_ms: markers.loops[k].end_ms,
                name: markers.loops[k].name.clone(),
            };
            loops.push(l);
            proof {
                assert(loops@.map_values(|l: SeratoLoop| l@) =~= before.push(lv[k as int]));
                assert(before.push(lv[k as int]) + stored_loops_from(lv, k + 1) =~= before + (seq![lv[k as int]]
                    + stored_loops_from(lv, k + 1)));
            }
        }
        k = k + 1;
    }
    proof {
        assert(loops@.map_values(|l: SeratoLoop| l@) + Seq::<LoopFields>::empty() =~= loops@.map_values(|l: SeratoLoop| l@));
    }
    SeratoMarkers { cues, loops }
}

proof fn lemma_stored_cues_come_from(s: Seq<CueFields>, i: int)
    requires
        0 <= i,
    ensures
        forall|p: int| 0 <= p < stored_cues_from(s, i).len() ==> exists|k: int| i <= k < s.len()
            && !cue_superseded(s, k) && #[trigger] stored_cues_from(s, i)[p] == s[k],
    decreases s.len() - i,
{
    if i < s.len() {
        lemma_stored_cues_come_from(s, i + 1);
        let r = stored_cues_from(s, i + 1);
        if !cue_superseded(s, i) {
            assert forall|p: int| 0 <= p < stored_cues_from(s, i).len() implies exists|k: int| i <= k < s.len()
                && !cue_superseded(s, k) && #[trigger] stored_cues_from(s, i)[p] == s[k] by {
                if p == 0 {
                    assert(stored_cues_from(s, i)[0] == s[i]);
                } else {
                    assert(stored_cues_from(s, i)[p] == r[p - 1]);
                }
            }
        }
    }
}

/// The stored cues hold one cue per slot: no two share a slot.
pub proof fn lemma_stored_cue_slots_distinct(s: Seq<CueFields>, i: int)
    requires
        0 <= i,
    ensures
        forall|p: int, q: int|
            0 <= p < q < stored_cues_from(s, i).len() ==> (#[trigger] stored_cues_from(s, i)[p]).index
                != (#[trigger] stored_cues_from(s, i)[q]).index,
    decreases s.len() - i,
{
    if i < s.len() {
        lemma_stored_cue_slots_distinct(s, i + 1);
        let r = stored_cues_from(s, i + 1);
        if !cue_superseded(s, i) {
            lemma_stored_cues_come_from(s, i + 1);
            let t = stored_cues_from(s, i);
            assert forall|p: int, q: int| 0 <= p < q < t.len() implies (#[trigger] t[p]).index != (#[trigger] t[q]).index by {
                assert(t[q] == r[q - 1]);
                if p == 0 {
                    let k = choose|k: int| i + 1 <= k < s.len() && !cue_superseded(s, k) && #[trigger] r[q - 1] == s[k];
                    assert(s[k].index != s[i].index);
                } else {
                    assert(t[p] == r[p - 1]);
                }
            }
        }
    }
}

} // verus!
