//! rekordbox XML writer: the element stream of a `DJ_PLAYLISTS` document,
//! the inverse of the reader in `rekordbox`.
//!
//! Every field the reader understands is a field written here. Absent means
//! absent: an empty text field is not written (it would read back as an
//! empty credit). Numbers are written as `Display` writes them; the
//! fractional seconds and tempi arrive already formatted (three and two
//! decimals, the format's own precision). Colour goes out at palette-token
//! fidelity; the playlist tree is rebuilt from the flat list, children
//! after their parent, under the transparent `ROOT` folder rekordbox
//! expects.

use vstd::prelude::*;

use crate::xml::{XmlTag, XmlAttr, XmlEvent, TagView, AttrView, EventView, events_view, name_bytes};
use crate::rekordbox::{ParsedPlaylist, PlaylistView, parents_precede};
use crate::num::{int_display, i64_text, usize_text};
use crate::file_url::{file_url_of, encode_file_url, hex_upper};
use crate::color_label::{token_rgb, rgb_from_token, hex_pair, byte_len, is_boundary};
use crate::text::{trim, chars_of, string_of, trim_bounds};
use crate::filename_parser::opt_view;

verus! {

/// Why an export could not be written.
#[derive(Debug, Clone)]
pub struct ExportError(pub String);

impl ExportError {
    /// The error as text, `rekordbox export failed: <reason>`.
    pub fn message(&self) -> (r: String)
        ensures
            r@ == "rekordbox export failed: "@ + self.0@,
    {
        let mut s = String::from_str("rekordbox export failed: ");
        s.append(self.0.as_str());
        s
    }
}

/// One cue to write, its position already formatted as seconds.
#[derive(Debug, Clone)]
pub struct ExportCue {
    /// Hot-cue pad slot, `None` for a memory cue.
    pub hotcue: Option<u8>,
    /// Position from the track start, seconds with three decimals.
    pub position: String,
    /// Cue label.
    pub name: Option<String>,
    /// `#RRGGBB`.
    pub color: Option<String>,
}

/// One loop to write, its points already formatted as seconds.
#[derive(Debug, Clone)]
pub struct ExportLoop {
    /// Hot-cue pad slot, `None` for a memory loop.
    pub hotcue: Option<u8>,
    /// Loop in-point, seconds with three decimals.
    pub start: String,
    /// Loop out-point, seconds with three decimals.
    pub end: String,
    /// Loop label.
    pub name: Option<String>,
    /// `#RRGGBB`.
    pub color: Option<String>,
}

/// One collection track to write. The tempi and the whole-second length
/// arrive formatted.
#[derive(Debug, Clone)]
pub struct ExportTrack {
    /// `TrackID`.
    pub track_id: i64,
    /// Absolute path, written as a `file://localhost` URL.
    pub path: Option<String>,
    /// `Name`.
    pub title: Option<String>,
    /// `Artist`.
    pub artist: Option<String>,
    /// `Composer`.
    pub composer: Option<String>,
    /// `Album`.
    pub album: Option<String>,
    /// `Genre`.
    pub genre: Option<String>,
    /// `Comments`.
    pub comment: Option<String>,
    /// `Tonality`.
    pub key: Option<String>,
    /// `AverageBpm`, two decimals.
    pub bpm: Option<String>,
    /// `TotalTime`, whole seconds.
    pub total_time: Option<String>,
    /// `Year`.
    pub year: Option<i32>,
    /// `TrackNumber`.
    pub track_number: Option<i32>,
    /// Star rating 0 to 5.
    pub rating: Option<i32>,
    /// Palette colour token.
    pub color: Option<String>,
    /// Grid anchor, seconds with three decimals.
    pub grid_anchor: Option<String>,
    /// Grid tempo, two decimals.
    pub grid_bpm: Option<String>,
    /// Beat-in-bar at the anchor, 0-based.
    pub grid_bar_phase: u8,
    /// Cues.
    pub cues: Vec<ExportCue>,
    /// Loops.
    pub loops: Vec<ExportLoop>,
}

/// An attribute with a value.
pub open spec fn attr_v(key: Seq<char>, value: Seq<char>) -> AttrView {
    AttrView { key: name_bytes(key), value: Some(value) }
}

/// A tag.
pub open spec fn tag_v(name: Seq<char>, attrs: Seq<AttrView>) -> TagView {
    TagView { name: name_bytes(name), attrs }
}

/// The attribute of a text field that is present and not empty.
pub open spec fn text_attr(key: Seq<char>, v: Option<Seq<char>>) -> Seq<AttrView> {
    match v {
        Some(s) => if s.len() > 0 { seq![attr_v(key, s)] } else { Seq::empty() },
        None => Seq::empty(),
    }
}

/// The attribute of a value that is present.
pub open spec fn some_attr(key: Seq<char>, v: Option<Seq<char>>) -> Seq<AttrView> {
    match v {
        Some(s) => seq![attr_v(key, s)],
        None => Seq::empty(),
    }
}

/// The attribute of an integer that is present.
pub open spec fn int_attr(key: Seq<char>, v: Option<i32>) -> Seq<AttrView> {
    match v {
        Some(n) => seq![attr_v(key, int_display(n as int))],
        None => Seq::empty(),
    }
}

/// rekordbox's 0 to 255 rating: stars (clamped to 0 to 5) in steps of 51.
pub open spec fn rating_value(stars: i32) -> int {
    (if stars < 0 { 0 } else if stars > 5 { 5 } else { stars as int }) * 51
}

/// `0xRRGGBB` in upper-case hex.
pub open spec fn colour_text(r: u8, g: u8, b: u8) -> Seq<char> {
    seq!['0', 'x', hex_upper(r / 16), hex_upper(r % 16), hex_upper(g / 16), hex_upper(g % 16), hex_upper(b / 16), hex_upper(b % 16)]
}

/// The `Colour` attribute of a palette token.
pub open spec fn colour_attr(token: Option<Seq<char>>) -> Seq<AttrView> {
    match token {
        Some(t) => match token_rgb(t) {
            Some((r, g, b)) => seq![attr_v("Colour"@, colour_text(r, g, b))],
            None => Seq::empty(),
        },
        None => Seq::empty(),
    }
}

/// The `Location` attribute of a path.
pub open spec fn location_attr(path: Option<Seq<char>>) -> Seq<AttrView> {
    match path {
        Some(p) => seq![attr_v("Location"@, file_url_of(p))],
        None => Seq::empty(),
    }
}

/// The attributes of a `<TRACK>`, in the order they are written.
#[verifier::opaque]
pub open spec fn track_attrs(t: ExportTrack) -> Seq<AttrView> {
    track_text_attrs(t) + track_number_attrs(t)
}

/// The identity and text attributes of a `<TRACK>`.
pub open spec fn track_text_attrs(t: ExportTrack) -> Seq<AttrView> {
    seq![attr_v("TrackID"@, int_display(t.track_id as int))]
        + text_attr("Name"@, opt_view(t.title))
        + text_attr("Artist"@, opt_view(t.artist))
        + text_attr("Composer"@, opt_view(t.composer))
        + text_attr("Album"@, opt_view(t.album))
        + text_attr("Genre"@, opt_view(t.genre))
        + text_attr("Comments"@, opt_view(t.comment))
        + text_attr("Tonality"@, opt_view(t.key))
}

/// The numeric, colour and location attributes of a `<TRACK>`.
pub open spec fn track_number_attrs(t: ExportTrack) -> Seq<AttrView> {
    some_attr("AverageBpm"@, opt_view(t.bpm))
        + some_attr("TotalTime"@, opt_view(t.total_time))
        + int_attr("Year"@, t.year)
        + int_attr("TrackNumber"@, t.track_number)
        + rating_attr(t.rating)
        + colour_attr(opt_view(t.color))
        + location_attr(opt_view(t.path))
}

/// The text after trimming and dropping one leading `#`.
pub open spec fn hash_body(s: Seq<char>) -> Seq<char> {
    let h = trim(s);
    if h.len() >= 1 && h[0] == '#' {
        h.subrange(1, h.len() as int)
    } else {
        h
    }
}

/// A `#RRGGBB` colour as three channels: six bytes, each pair read as
/// `u8::from_str_radix(_, 16)` reads it.
pub open spec fn hash_rgb(s: Seq<char>) -> Option<(u8, u8, u8)> {
    let h = hash_body(s);
    if byte_len(h) != 6 || h.len() != 6 {
        None
    } else {
        match (hex_pair(h[0], h[1]), hex_pair(h[2], h[3]), hex_pair(h[4], h[5])) {
            (Some(r), Some(g), Some(b)) => Some((r, g, b)),
            _ => None,
        }
    }
}

/// The six-byte body can be cut into two-byte channels without splitting a
/// character (otherwise slicing it would fail).
pub open spec fn hash_sliceable(s: Seq<char>) -> bool {
    let h = hash_body(s);
    byte_len(h) == 6 ==> is_boundary(h, 2) && is_boundary(h, 4)
}

/// A colour that can be read without failing.
pub open spec fn color_ok(c: Option<String>) -> bool {
    match c {
        Some(s) => hash_sliceable(s@),
        None => true,
    }
}

/// The `Num` attribute: the pad slot, `-1` for a memory marker.
pub open spec fn num_attr(hotcue: Option<u8>) -> AttrView {
    attr_v("Num"@, int_display(match hotcue { Some(n) => n as int, None => -1 }))
}

/// The `Red` / `Green` / `Blue` attributes of a `#RRGGBB` colour.
pub open spec fn rgb_attrs(color: Option<Seq<char>>) -> Seq<AttrView> {
    match color {
        Some(c) => match hash_rgb(c) {
            Some((r, g, b)) => seq![
                attr_v("Red"@, int_display(r as int)),
                attr_v("Green"@, int_display(g as int)),
                attr_v("Blue"@, int_display(b as int)),
            ],
            None => Seq::empty(),
        },
        None => Seq::empty(),
    }
}

/// The text of an optional name, empty when absent.
pub open spec fn name_or_empty(n: Option<Seq<char>>) -> Seq<char> {
    match n {
        Some(s) => s,
        None => Seq::empty(),
    }
}

/// The `<POSITION_MARK>` of a cue.
pub open spec fn cue_tag(c: ExportCue) -> TagView {
    tag_v(
        "POSITION_MARK"@,
        seq![attr_v("Name"@, name_or_empty(opt_view(c.name))), attr_v("Type"@, "0"@), attr_v("Start"@, c.position@), num_attr(c.hotcue)]
            + rgb_attrs(opt_view(c.color)),
    )
}

/// The `<POSITION_MARK>` of a loop.
pub open spec fn loop_tag(l: ExportLoop) -> TagView {
    tag_v(
        "POSITION_MARK"@,
        seq![
            attr_v("Name"@, name_or_empty(opt_view(l.name))),
            attr_v("Type"@, "4"@),
            attr_v("Start"@, l.start@),
            attr_v("End"@, l.end@),
            num_attr(l.hotcue),
        ] + rgb_attrs(opt_view(l.color)),
    )
}

/// The `<TEMPO>` of a grid, when both its anchor and tempo are known.
pub open spec fn tempo_tags(t: ExportTrack) -> Seq<TagView> {
    match (t.grid_bpm, t.grid_anchor) {
        (Some(b), Some(a)) => seq![tag_v("TEMPO"@, seq![
            attr_v("Inizio"@, a@),
            attr_v("Bpm"@, b@),
            attr_v("Metro"@, "4/4"@),
            attr_v("Battito"@, int_display((if t.grid_bar_phase < 3 { t.grid_bar_phase as int } else { 3 }) + 1)),
        ])],
        _ => Seq::empty(),
    }
}

/// The `<TEMPO>` event of a grid, if any.
pub open spec fn tempo_events(t: ExportTrack) -> Seq<EventView> {
    tempo_tags(t).map_values(|g: TagView| EventView::Empty(g))
}

/// The events of one collection track: a self-closing `<TRACK>` when it has
/// no grid tempo, cue or loop; otherwise the element with its `<TEMPO>` and
/// `<POSITION_MARK>` children.
pub open spec fn track_events(t: ExportTrack) -> Seq<EventView> {
    let tag = tag_v("TRACK"@, track_attrs(t));
    if t.grid_bpm.is_none() && t.cues@.len() == 0 && t.loops@.len() == 0 {
        seq![EventView::Empty(tag)]
    } else {
        seq![EventView::Start(tag)] + tempo_events(t)
            + t.cues@.map_values(|c: ExportCue| EventView::Empty(cue_tag(c)))
            + t.loops@.map_values(|l: ExportLoop| EventView::Empty(loop_tag(l)))
            + seq![EventView::End(name_bytes("TRACK"@))]
    }
}

/// The values of a list of attributes.
pub open spec fn attrs_view(v: Seq<XmlAttr>) -> Seq<AttrView> {
    v.map_values(|a: XmlAttr| a@)
}

/// The UTF-8 bytes of a name.
fn bytes_of(s: &str) -> (r: Vec<u8>)
    ensures
        r@ == name_bytes(s@),
{
    let b = s.as_bytes();
    let mut r: Vec<u8> = Vec::new();
    let mut k: usize = 0;
    while k < b.len()
        invariant
            0 <= k <= b@.len(),
            r@ == b@.subrange(0, k as int),
        decreases b.len() - k,
    {
        r.push(b[k]);
        k = k + 1;
        proof {
            assert(r@ =~= b@.subrange(0, k as int));
        }
    }
    proof {
        assert(r@ =~= b@);
    }
    r
}

fn push_attr(attrs: &mut Vec<XmlAttr>, key: &str, value: String)
    ensures
        attrs_view(final(attrs)@) == attrs_view(old(attrs)@).push(attr_v(key@, value@)),
{
    let a = XmlAttr { key: bytes_of(key), value: Some(value) };
    attrs.push(a);
    proof {
        assert(attrs_view(attrs@) =~= attrs_view(old(attrs)@).push(attr_v(key@, value@)));
    }
}

fn push_event(out: &mut Vec<XmlEvent>, e: XmlEvent)
    ensures
        events_view(final(out)@) == events_view(old(out)@).push(e@),
{
    out.push(e);
    proof {
        assert(events_view(out@) =~= events_view(old(out)@).push(e@));
    }
}

fn make_tag(name: &str, attrs: Vec<XmlAttr>) -> (t: XmlTag)
    ensures
        t@ == tag_v(name@, attrs_view(attrs@)),
{
    XmlTag { name: bytes_of(name), attrs }
}

fn push_text_attr(attrs: &mut Vec<XmlAttr>, key: &str, v: &Option<String>)
    ensures
        attrs_view(final(attrs)@) == attrs_view(old(attrs)@) + text_attr(key@, opt_view(*v)),
{
    match v {
        Some(s) => {
            if !s.as_str().is_empty() {
                push_attr(attrs, key, s.clone());
            } else {
                proof {
                    assert(attrs_view(attrs@) =~= attrs_view(old(attrs)@) + text_attr(key@, opt_view(*v)));
                }
            }
        },
        None => {
            proof {
                assert(attrs_view(attrs@) =~= attrs_view(old(attrs)@) + text_attr(key@, opt_view(*v)));
            }
        },
    }
    proof {
        assert(attrs_view(attrs@) =~= attrs_view(old(attrs)@) + text_attr(key@, opt_view(*v)));
    }
}

fn push_some_attr(attrs: &mut Vec<XmlAttr>, key: &str, v: &Option<String>)
    ensures
        attrs_view(final(attrs)@) == attrs_view(old(attrs)@) + some_attr(key@, opt_view(*v)),
{
    match v {
        Some(s) => {
            push_attr(attrs, key, s.clone());
        },
        None => {},
    }
    proof {
        assert(attrs_view(attrs@) =~= attrs_view(old(attrs)@) + some_attr(key@, opt_view(*v)));
    }
}

fn push_int_attr(attrs: &mut Vec<XmlAttr>, key: &str, v: Option<i32>)
    ensures
        attrs_view(final(attrs)@) == attrs_view(old(attrs)@) + int_attr(key@, v),
{
    match v {
        Some(n) => {
            push_attr(attrs, key, i64_text(n as i64));
        },
        None => {},
    }
    proof {
        assert(attrs_view(attrs@) =~= attrs_view(old(attrs)@) + int_attr(key@, v));
    }
}

fn hex_char(n: u8) -> (c: char)
    requires
        n < 16,
    ensures
        c == hex_upper(n),
{
    if n < 10 {
        crate::text::char_from_u32((n as u32) + 0x30)
    } else {
        crate::text::char_from_u32((n as u32) + 0x37)
    }
}

/// `0xRRGGBB` from three channels.
fn colour_string(r: u8, g: u8, b: u8) -> (s: String)
    ensures
        s@ == colour_text(r, g, b),
{
    let mut v: Vec<char> = Vec::new();
    v.push('0');
    v.push('x');
    v.push(hex_char(r / 16));
    v.push(hex_char(r % 16));
    v.push(hex_char(g / 16));
    v.push(hex_char(g % 16));
    v.push(hex_char(b / 16));
    v.push(hex_char(b % 16));
    proof {
        assert(v@ =~= colour_text(r, g, b));
    }
    string_of(&v)
}

proof fn lemma_byte_len_ascii(h: Seq<char>)
    ensures
        byte_len(h) >= h.len(),
        byte_len(h) == h.len() <==> (forall|i: int| 0 <= i < h.len() ==> (h[i] as u32) < 0x80),
    decreases h.len(),
{
    if h.len() > 0 {
        lemma_byte_len_ascii(h.drop_last());
        if byte_len(h) == h.len() {
            assert forall|i: int| 0 <= i < h.len() implies (h[i] as u32) < 0x80 by {
                if i < h.len() - 1 {
                    assert(h[i] == h.drop_last()[i]);
                }
            }
        }
        if forall|i: int| 0 <= i < h.len() ==> (h[i] as u32) < 0x80 {
            assert forall|i: int| 0 <= i < h.drop_last().len() implies (h.drop_last()[i] as u32) < 0x80 by {
                assert(h.drop_last()[i] == h[i]);
            }
        }
    }
}

fn hex_digit_of(c: char) -> (r: Option<u8>)
    ensures
        r == crate::color_label::hex_digit(c),
{
    if '0' <= c && c <= '9' {
        Some(((c as u32) - ('0' as u32)) as u8)
    } else if 'a' <= c && c <= 'f' {
        Some(((c as u32) - ('a' as u32) + 10) as u8)
    } else if 'A' <= c && c <= 'F' {
        Some(((c as u32) - ('A' as u32) + 10) as u8)
    } else {
        None
    }
}

fn hex_pair_of(a: char, b: char) -> (r: Option<u8>)
    ensures
        r == hex_pair(a, b),
{
    if a == '+' {
        hex_digit_of(b)
    } else {
        match (hex_digit_of(a), hex_digit_of(b)) {
            (Some(h), Some(l)) => Some(h * 16 + l),
            _ => None,
        }
    }
}

fn hash_body_bounds(v: &Vec<char>) -> (r: (usize, usize))
    ensures
        r.0 <= r.1 <= v@.len(),
        v@.subrange(r.0 as int, r.1 as int) == hash_body(v@),
{
    let (i0, j) = trim_bounds(v.as_slice(), 0, v.len());
    proof {
        assert(v@.subrange(0, v@.len() as int) =~= v@);
    }
    let mut i = i0;
    if j - i >= 1 && v[i] == '#' {
        i = i + 1;
        proof {
            let t = v@.subrange(i0 as int, j as int);
            assert(t.subrange(1, t.len() as int) =~= v@.subrange(i as int, j as int));
        }
    }
    (i, j)
}

fn all_ascii(v: &Vec<char>, i: usize, j: usize) -> (r: bool)
    requires
        i <= j <= v@.len(),
    ensures
        r == (forall|m: int| 0 <= m < j - i ==> (v@.subrange(i as int, j as int)[m] as u32) < 0x80),
{
    let mut k: usize = i;
    while k < j
        invariant
            i <= k <= j,
            j <= v@.len(),
            forall|m: int| i <= m < k ==> (v@[m] as u32) < 0x80,
        decreases j - k,
    {
        if (v[k] as u32) >= 0x80 {
            proof {
                assert(v@.subrange(i as int, j as int)[k - i] == v@[k as int]);
            }
            return false;
        }
        k = k + 1;
    }
    proof {
        assert forall|m: int| 0 <= m < j - i implies (v@.subrange(i as int, j as int)[m] as u32) < 0x80 by {
            assert(v@.subrange(i as int, j as int)[m] == v@[i + m]);
        }
    }
    true
}

/// Read `#RRGGBB` (surrounding white space ignored, `#` optional) as three
/// channels.
pub fn parse_hex_rgb(s: &str) -> (r: Option<(u8, u8, u8)>)
    requires
        hash_sliceable(s@),
    ensures
        r == hash_rgb(s@),
{
    let v = chars_of(s);
    let (i, j) = hash_body_bounds(&v);
    let ghost h = hash_body(s@);
    proof {
        lemma_byte_len_ascii(h);
    }
    if j - i != 6 {
        return None;
    }
    if !all_ascii(&v, i, j) {
        return None;
    }
    proof {
        assert(h[0] == v@[i as int]);
        assert(h[1] == v@[i + 1]);
        assert(h[2] == v@[i + 2]);
        assert(h[3] == v@[i + 3]);
        assert(h[4] == v@[i + 4]);
        assert(h[5] == v@[i + 5]);
    }
    let r = hex_pair_of(v[i], v[i + 1]);
    let g = hex_pair_of(v[i + 2], v[i + 3]);
    let b = hex_pair_of(v[i + 4], v[i + 5]);
    match (r, g, b) {
        (Some(r), Some(g), Some(b)) => Some((r, g, b)),
        _ => None,
    }
}

fn push_color(attrs: &mut Vec<XmlAttr>, color: &Option<String>)
    requires
        color_ok(*color),
    ensures
        attrs_view(final(attrs)@) == attrs_view(old(attrs)@) + rgb_attrs(opt_view(*color)),
{
    match color {
        Some(c) => {
            match parse_hex_rgb(c.as_str()) {
                Some((r, g, b)) => {
                    push_attr(attrs, "Red", i64_text(r as i64));
                    push_attr(attrs, "Green", i64_text(g as i64));
                    push_attr(attrs, "Blue", i64_text(b as i64));
                },
                None => {},
            }
        },
        None => {},
    }
    proof {
        assert(attrs_view(attrs@) =~= attrs_view(old(attrs)@) + rgb_attrs(opt_view(*color)));
    }
}

fn push_num(attrs: &mut Vec<XmlAttr>, hotcue: Option<u8>)
    ensures
        attrs_view(final(attrs)@) == attrs_view(old(attrs)@).push(num_attr(hotcue)),
{
    let n: i64 = match hotcue {
        Some(h) => h as i64,
        None => -1,
    };
    push_attr(attrs, "Num", i64_text(n));
}

fn name_text(n: &Option<String>) -> (s: String)
    ensures
        s@ == name_or_empty(opt_view(*n)),
{
    match n {
        Some(s) => s.clone(),
        None => String::new(),
    }
}

/// The `<POSITION_MARK>` of a cue.
fn cue_element(c: &ExportCue) -> (t: XmlTag)
    requires
        color_ok(c.color),
    ensures
        t@ == cue_tag(*c),
{
    let mut attrs: Vec<XmlAttr> = Vec::new();
    push_attr(&mut attrs, "Name", name_text(&c.name));
    push_attr(&mut attrs, "Type", String::from_str("0"));
    push_attr(&mut attrs, "Start", c.position.clone());
    push_num(&mut attrs, c.hotcue);
    let ghost head = attrs_view(attrs@);
    push_color(&mut attrs, &c.color);
    proof {
        assert(head =~= seq![
            attr_v("Name"@, name_or_empty(opt_view(c.name))),
            attr_v("Type"@, "0"@),
            attr_v("Start"@, c.position@),
            num_attr(c.hotcue),
        ]);
    }
    make_tag("POSITION_MARK", attrs)
}

/// The `<POSITION_MARK>` of a loop.
fn loop_element(l: &ExportLoop) -> (t: XmlTag)
    requires
        color_ok(l.color),
    ensures
        t@ == loop_tag(*l),
{
    let mut attrs: Vec<XmlAttr> = Vec::new();
    push_attr(&mut attrs, "Name", name_text(&l.name));
    push_attr(&mut attrs, "Type", String::from_str("4"));
    push_attr(&mut attrs, "Start", l.start.clone());
    push_attr(&mut attrs, "End", l.end.clone());
    push_num(&mut attrs, l.hotcue);
    let ghost head = attrs_view(attrs@);
    push_color(&mut attrs, &l.color);
    proof {
        assert(head =~= seq![
            attr_v("Name"@, name_or_empty(opt_view(l.name))),
            attr_v("Type"@, "4"@),
            attr_v("Start"@, l.start@),
            attr_v("End"@, l.end@),
            num_attr(l.hotcue),
        ]);
    }
    make_tag("POSITION_MARK", attrs)
}

fn text_attributes(t: &ExportTrack, attrs: &mut Vec<XmlAttr>)
    ensures
        attrs_view(final(attrs)@) == attrs_view(old(attrs)@) + track_text_attrs(*t),
{
    let ghost a = attrs_view(attrs@);
    push_attr(attrs, "TrackID", i64_text(t.track_id));
    push_text_attr(attrs, "Name", &t.title);
    push_text_attr(attrs, "Artist", &t.artist);
    push_text_attr(attrs, "Composer", &t.composer);
    push_text_attr(attrs, "Album", &t.album);
    push_text_attr(attrs, "Genre", &t.genre);
    push_text_attr(attrs, "Comments", &t.comment);
    push_text_attr(attrs, "Tonality", &t.key);
    proof {
        assert(attrs_view(attrs@) =~= a + track_text_attrs(*t));
    }
}

/// The `Rating` attribute of a star rating.
pub open spec fn rating_attr(rating: Option<i32>) -> Seq<AttrView> {
    match rating {
        Some(s) => seq![attr_v("Rating"@, int_display(rating_value(s)))],
        None => Seq::empty(),
    }
}

fn push_rating(attrs: &mut Vec<XmlAttr>, rating: Option<i32>)
    ensures
        attrs_view(final(attrs)@) == attrs_view(old(attrs)@) + rating_attr(rating),
{
    match rating {
        Some(stars) => {
            let clamped: i64 = if stars < 0 { 0 } else if stars > 5 { 5 } else { stars as i64 };
            push_attr(attrs, "Rating", i64_text(clamped * 51));
        },
        None => {},
    }
    proof {
        assert(attrs_view(attrs@) =~= attrs_view(old(attrs)@) + rating_attr(rating));
    }
}

fn push_colour(attrs: &mut Vec<XmlAttr>, color: &Option<String>)
    ensures
        attrs_view(final(attrs)@) == attrs_view(old(attrs)@) + colour_attr(opt_view(*color)),
{
    match color {
        Some(tok) => match rgb_from_token(tok.as_str()) {
            Some((r, g, b)) => {
                push_attr(attrs, "Colour", colour_string(r, g, b));
            },
            None => {},
        },
        None => {},
    }
    proof {
        assert(attrs_view(attrs@) =~= attrs_view(old(attrs)@) + colour_attr(opt_view(*color)));
    }
}

fn push_location(attrs: &mut Vec<XmlAttr>, path: &Option<String>)
    ensures
        attrs_view(final(attrs)@) == attrs_view(old(attrs)@) + location_attr(opt_view(*path)),
{
    match path {
        Some(p) => {
            push_attr(attrs, "Location", encode_file_url(p.as_str()));
        },
        None => {},
    }
    proof {
        assert(attrs_view(attrs@) =~= attrs_view(old(attrs)@) + location_attr(opt_view(*path)));
    }
}

fn number_attributes(t: &ExportTrack, attrs: &mut Vec<XmlAttr>)
    ensures
        attrs_view(final(attrs)@) == attrs_view(old(attrs)@) + track_number_attrs(*t),
{
    let ghost a = attrs_view(attrs@);
    push_some_attr(attrs, "AverageBpm", &t.bpm);
    push_some_attr(attrs, "TotalTime", &t.total_time);
    push_int_attr(attrs, "Year", t.year);
    push_int_attr(attrs, "TrackNumber", t.track_number);
    push_rating(attrs, t.rating);
    push_colour(attrs, &t.color);
    push_location(attrs, &t.path);
    proof {
        assert(attrs_view(attrs@) =~= a + track_number_attrs(*t));
    }
}

/// The attributes of a `<TRACK>`.
fn track_attributes(t: &ExportTrack) -> (attrs: Vec<XmlAttr>)
    ensures
        attrs_view(attrs@) == track_attrs(*t),
{
    let mut attrs: Vec<XmlAttr> = Vec::new();
    text_attributes(t, &mut attrs);
    number_attributes(t, &mut attrs);
    proof {
        reveal(track_attrs);
        assert(attrs_view(attrs@) =~= track_attrs(*t));
    }
    attrs
}

/// Every colour of a track's cues and loops can be read.
pub open spec fn track_colors_ok(t: ExportTrack) -> bool {
    &&& forall|i: int| 0 <= i < t.cues@.len() ==> color_ok(#[trigger] t.cues@[i].color)
    &&& forall|i: int| 0 <= i < t.loops@.len() ==> color_ok(#[trigger] t.loops@[i].color)
}

fn write_tempo(t: &ExportTrack, out: &mut Vec<XmlEvent>)
    ensures
        events_view(final(out)@) == events_view(old(out)@) + tempo_events(*t),
{
    match (&t.grid_bpm, &t.grid_anchor) {
        (Some(b), Some(a)) => {
            let mut attrs: Vec<XmlAttr> = Vec::new();
            push_attr(&mut attrs, "Inizio", a.clone());
            push_attr(&mut attrs, "Bpm", b.clone());
            push_attr(&mut attrs, "Metro", String::from_str("4/4"));
            let phase: u8 = if t.grid_bar_phase < 3 { t.grid_bar_phase } else { 3 };
            push_attr(&mut attrs, "Battito", i64_text((phase + 1) as i64));
            proof {
                assert(attrs_view(attrs@) =~= seq![
                    attr_v("Inizio"@, a@),
                    attr_v("Bpm"@, b@),
                    attr_v("Metro"@, "4/4"@),
                    attr_v("Battito"@, int_display((if t.grid_bar_phase < 3 { t.grid_bar_phase as int } else { 3 }) + 1)),
                ]);
            }
            push_event(out, XmlEvent::Empty(make_tag("TEMPO", attrs)));
        },
        _ => {},
    }
    proof {
        assert(events_view(out@) =~= events_view(old(out)@) + tempo_events(*t));
    }
}

fn write_cues(t: &ExportTrack, out: &mut Vec<XmlEvent>)
    requires
        track_colors_ok(*t),
    ensures
        events_view(final(out)@) == events_view(old(out)@) + t.cues@.map_values(|c: ExportCue| EventView::Empty(cue_tag(c))),
{
    let ghost e2 = events_view(out@);
    let mut k: usize = 0;
    proof {
        assert(e2 =~= e2 + t.cues@.subrange(0, 0).map_values(|c: ExportCue| EventView::Empty(cue_tag(c))));
    }
    while k < t.cues.len()
        invariant
            0 <= k <= t.cues@.len(),
            track_colors_ok(*t),
            events_view(out@) == e2 + t.cues@.subrange(0, k as int).map_values(|c: ExportCue| EventView::Empty(cue_tag(c))),
        decreases t.cues.len() - k,
    {
        let el = cue_element(&t.cues[k]);
        push_event(out, XmlEvent::Empty(el));
        proof {
            assert(t.cues@.subrange(0, k + 1).map_values(|c: ExportCue| EventView::Empty(cue_tag(c))) =~= t.cues@.subrange(0, k as int).map_values(|c: ExportCue| EventView::Empty(cue_tag(c))).push(EventView::Empty(cue_tag(t.cues@[k as int]))));
        }
        k = k + 1;
    }
    proof {
        assert(t.cues@.subrange(0, t.cues@.len() as int) =~= t.cues@);
    }
}

fn write_loops(t: &ExportTrack, out: &mut Vec<XmlEvent>)
    requires
        track_colors_ok(*t),
    ensures
        events_view(final(out)@) == events_view(old(out)@) + t.loops@.map_values(|l: ExportLoop| EventView::Empty(loop_tag(l))),
{
    let ghost e3 = events_view(out@);
    let mut k: usize = 0;
    proof {
        assert(e3 =~= e3 + t.loops@.subrange(0, 0).map_values(|l: ExportLoop| EventView::Empty(loop_tag(l))));
    }
    while k < t.loops.len()
        invariant
            0 <= k <= t.loops@.len(),
            track_colors_ok(*t),
            events_view(out@) == e3 + t.loops@.subrange(0, k as int).map_values(|l: ExportLoop| EventView::Empty(loop_tag(l))),
        decreases t.loops.len() - k,
    {
        let el = loop_element(&t.loops[k]);
        push_event(out, XmlEvent::Empty(el));
        proof {
            assert(t.loops@.subrange(0, k + 1).map_values(|l: ExportLoop| EventView::Empty(loop_tag(l))) =~= t.loops@.subrange(0, k as int).map_values(|l: ExportLoop| EventView::Empty(loop_tag(l))).push(EventView::Empty(loop_tag(t.loops@[k as int]))));
        }
        k = k + 1;
    }
    proof {
        assert(t.loops@.subrange(0, t.loops@.len() as int) =~= t.loops@);
    }
}

/// Append the events of one collection track.
pub fn write_track(t: &ExportTrack, out: &mut Vec<XmlEvent>)
    requires
        track_colors_ok(*t),
    ensures
        events_view(final(out)@) == events_view(old(out)@) + track_events(*t),
{
    let tag = make_tag("TRACK", track_attributes(t));
    let has_children = t.grid_bpm.is_some() || t.cues.len() > 0 || t.loops.len() > 0;
    if !has_children {
        push_event(out, XmlEvent::Empty(tag));
        proof {
            assert(events_view(out@) =~= events_view(old(out)@) + track_events(*t));
        }
        return;
    }
    push_event(out, XmlEvent::Start(tag));
    write_tempo(t, out);
    write_cues(t, out);
    write_loops(t, out);
    push_event(out, XmlEvent::End(bytes_of("TRACK")));
    proof {
        assert(events_view(out@) =~= events_view(old(out)@) + track_events(*t));
    }
}

/// The values of a playlist list.
pub open spec fn playlists_view(pl: Seq<ParsedPlaylist>) -> Seq<PlaylistView> {
    pl.map_values(|p: ParsedPlaylist| p@)
}

/// The number of nodes from index `from` on whose parent is `parent`.
pub open spec fn count_children(pl: Seq<PlaylistView>, parent: Option<usize>, from: int) -> nat
    decreases pl.len() - from,
{
    if from < 0 || from >= pl.len() {
        0
    } else {
        (if pl[from].parent == parent { 1nat } else { 0nat }) + count_children(pl, parent, from + 1)
    }
}

/// The `<TRACK Key=".."/>` members of a playlist.
pub open spec fn member_events(ids: Seq<i64>) -> Seq<EventView> {
    ids.map_values(|id: i64| EventView::Empty(tag_v("TRACK"@, seq![attr_v("Key"@, int_display(id as int))])))
}

/// The events of node `i` and its subtree: a node with children is a
/// folder (`Type="0"`, its children in order); any other node is a
/// playlist (`Type="1"`, `KeyType="0"`, its members).
pub open spec fn node_events(pl: Seq<PlaylistView>, i: int) -> Seq<EventView>
    decreases pl.len() - i, 1int, 0int,
{
    if i < 0 || i >= pl.len() {
        Seq::empty()
    } else {
        let n = count_children(pl, Some(i as usize), i + 1);
        if n > 0 {
            seq![EventView::Start(tag_v("NODE"@, seq![
                attr_v("Name"@, pl[i].name),
                attr_v("Type"@, "0"@),
                attr_v("Count"@, int_display(n as int)),
            ]))] + children_events(pl, i, i + 1) + seq![EventView::End(name_bytes("NODE"@))]
        } else {
            seq![EventView::Start(tag_v("NODE"@, seq![
                attr_v("Name"@, pl[i].name),
                attr_v("Type"@, "1"@),
                attr_v("KeyType"@, "0"@),
                attr_v("Entries"@, int_display(pl[i].track_ids.len() as int)),
            ]))] + member_events(pl[i].track_ids) + seq![EventView::End(name_bytes("NODE"@))]
        }
    }
}

/// The subtrees of the children of node `i` found from index `from` on.
pub open spec fn children_events(pl: Seq<PlaylistView>, i: int, from: int) -> Seq<EventView>
    decreases pl.len() - i, 0int, pl.len() - from,
{
    if from <= i || from >= pl.len() {
        Seq::empty()
    } else if pl[from].parent == Some(i as usize) {
        node_events(pl, from) + children_events(pl, i, from + 1)
    } else {
        children_events(pl, i, from + 1)
    }
}

/// The subtrees of the top-level nodes found from index `from` on.
pub open spec fn roots_events(pl: Seq<PlaylistView>, from: int) -> Seq<EventView>
    decreases pl.len() - from,
{
    if from < 0 || from >= pl.len() {
        Seq::empty()
    } else if pl[from].parent.is_none() {
        node_events(pl, from) + roots_events(pl, from + 1)
    } else {
        roots_events(pl, from + 1)
    }
}

/// The `<PLAYLISTS>` section: the transparent `ROOT` folder holding the
/// top-level nodes.
pub open spec fn playlists_events(pl: Seq<PlaylistView>) -> Seq<EventView> {
    seq![
        EventView::Start(tag_v("PLAYLISTS"@, Seq::empty())),
        EventView::Start(tag_v("NODE"@, seq![
            attr_v("Type"@, "0"@),
            attr_v("Name"@, "ROOT"@),
            attr_v("Count"@, int_display(count_children(pl, None, 0) as int)),
        ])),
    ] + roots_events(pl, 0) + seq![EventView::End(name_bytes("NODE"@)), EventView::End(name_bytes("PLAYLISTS"@))]
}

fn count_children_exec(pl: &[ParsedPlaylist], parent: Option<usize>, from: usize) -> (n: usize)
    requires
        from <= pl@.len(),
    ensures
        n as nat == count_children(playlists_view(pl@), parent, from as int),
        n <= pl@.len(),
{
    let ghost v = playlists_view(pl@);
    let mut n: usize = 0;
    let mut k: usize = pl.len();
    while k > from
        invariant
            from <= k <= pl@.len(),
            v == playlists_view(pl@),
            n as nat == count_children(v, parent, k as int),
            n <= pl@.len() - k,
        decreases k,
    {
        k = k - 1;
        if pl[k].parent == parent {
            n = n + 1;
        }
    }
    n
}

fn write_members(ids: &Vec<i64>, out: &mut Vec<XmlEvent>)
    ensures
        events_view(final(out)@) == events_view(old(out)@) + member_events(ids@),
{
    let ghost e0 = events_view(out@);
    let mut k: usize = 0;
    proof {
        assert(e0 =~= e0 + member_events(ids@.subrange(0, 0)));
    }
    while k < ids.len()
        invariant
            0 <= k <= ids@.len(),
            events_view(out@) == e0 + member_events(ids@.subrange(0, k as int)),
        decreases ids.len() - k,
    {
        let mut attrs: Vec<XmlAttr> = Vec::new();
        push_attr(&mut attrs, "Key", i64_text(ids[k]));
        proof {
            assert(attrs_view(attrs@) =~= seq![attr_v("Key"@, int_display(ids@[k as int] as int))]);
        }
        push_event(out, XmlEvent::Empty(make_tag("TRACK", attrs)));
        proof {
            assert(member_events(ids@.subrange(0, k + 1)) =~= member_events(ids@.subrange(0, k as int)).push(
                EventView::Empty(tag_v("TRACK"@, seq![attr_v("Key"@, int_display(ids@[k as int] as int))])),
            ));
        }
        k = k + 1;
    }
    proof {
        assert(ids@.subrange(0, ids@.len() as int) =~= ids@);
    }
}

/// Append the events of node `i` and its subtree.
fn write_node(pl: &[ParsedPlaylist], i: usize, out: &mut Vec<XmlEvent>)
    requires
        i < pl@.len(),
        parents_precede(playlists_view(pl@)),
    ensures
        events_view(final(out)@) == events_view(old(out)@) + node_events(playlists_view(pl@), i as int),
    decreases pl@.len() - i, 1int, 0int,
{
    let ghost v = playlists_view(pl@);
    assert(i < pl.len());
    let n = count_children_exec(pl, Some(i), i + 1);
    let ghost e0 = events_view(out@);
    let mut attrs: Vec<XmlAttr> = Vec::new();
    push_attr(&mut attrs, "Name", pl[i].name.clone());
    if n > 0 {
        push_attr(&mut attrs, "Type", String::from_str("0"));
        push_attr(&mut attrs, "Count", usize_text(n));
        proof {
            assert(attrs_view(attrs@) =~= seq![
                attr_v("Name"@, v[i as int].name),
                attr_v("Type"@, "0"@),
                attr_v("Count"@, int_display(n as int)),
            ]);
        }
        push_event(out, XmlEvent::Start(make_tag("NODE", attrs)));
        write_children(pl, i, i + 1, out);
    } else {
        push_attr(&mut attrs, "Type", String::from_str("1"));
        push_attr(&mut attrs, "KeyType", String::from_str("0"));
        push_attr(&mut attrs, "Entries", usize_text(pl[i].track_ids.len()));
        proof {
            assert(attrs_view(attrs@) =~= seq![
                attr_v("Name"@, v[i as int].name),
                attr_v("Type"@, "1"@),
                attr_v("KeyType"@, "0"@),
                attr_v("Entries"@, int_display(v[i as int].track_ids.len() as int)),
            ]);
        }
        push_event(out, XmlEvent::Start(make_tag("NODE", attrs)));
        write_members(&pl[i].track_ids, out);
    }
    push_event(out, XmlEvent::End(bytes_of("NODE")));
    proof {
        assert(events_view(out@) =~= e0 + node_events(v, i as int));
    }
}

/// Append the subtrees of the children of node `i` found from `from` on.
fn write_children(pl: &[ParsedPlaylist], i: usize, from: usize, out: &mut Vec<XmlEvent>)
    requires
        i < from <= pl@.len(),
        parents_precede(playlists_view(pl@)),
    ensures
        events_view(final(out)@) == events_view(old(out)@) + children_events(playlists_view(pl@), i as int, from as int),
    decreases pl@.len() - i, 0int, pl@.len() - from,
{
    let ghost v = playlists_view(pl@);
    if from >= pl.len() {
        proof {
            assert(events_view(out@) =~= events_view(old(out)@) + children_events(v, i as int, from as int));
        }
        return;
    }
    if pl[from].parent == Some(i) {
        write_node(pl, from, out);
    }
    write_children(pl, i, from + 1, out);
    proof {
        assert(events_view(out@) =~= events_view(old(out)@) + children_events(v, i as int, from as int));
    }
}

/// Append the `<PLAYLISTS>` section.
pub fn write_playlists(pl: &[ParsedPlaylist], out: &mut Vec<XmlEvent>)
    requires
        parents_precede(playlists_view(pl@)),
    ensures
        events_view(final(out)@) == events_view(old(out)@) + playlists_events(playlists_view(pl@)),
{
    let ghost v = playlists_view(pl@);
    let ghost e0 = events_view(out@);
    let empty: Vec<XmlAttr> = Vec::new();
    proof {
        assert(attrs_view(empty@) =~= Seq::<AttrView>::empty());
    }
    push_event(out, XmlEvent::Start(make_tag("PLAYLISTS", empty)));
    let roots = count_children_exec(pl, None, 0);
    let mut attrs: Vec<XmlAttr> = Vec::new();
    push_attr(&mut attrs, "Type", String::from_str("0"));
    push_attr(&mut attrs, "Name", String::from_str("ROOT"));
    push_attr(&mut attrs, "Count", usize_text(roots));
    proof {
        assert(attrs_view(attrs@) =~= seq![
            attr_v("Type"@, "0"@),
            attr_v("Name"@, "ROOT"@),
            attr_v("Count"@, int_display(count_children(v, None, 0) as int)),
        ]);
    }
    push_event(out, XmlEvent::Start(make_tag("NODE", attrs)));
    let ghost e1 = events_view(out@);
    let mut k: usize = 0;
    proof {
        assert(roots_events(v, 0) =~= Seq::<EventView>::empty() + roots_events(v, 0));
    }
    while k < pl.len()
        invariant
            0 <= k <= pl@.len(),
            v == playlists_view(pl@),
            parents_precede(v),
            events_view(out@) + roots_events(v, k as int) == e1 + roots_events(v, 0),
        decreases pl.len() - k,
    {
        if pl[k].parent.is_none() {
            write_node(pl, k, out);
        }
        k = k + 1;
    }
    push_event(out, XmlEvent::End(bytes_of("NODE")));
    push_event(out, XmlEvent::End(bytes_of("PLAYLISTS")));
    proof {
        assert(roots_events(v, k as int) =~= Seq::<EventView>::empty());
        assert(events_view(out@) =~= e0 + playlists_events(v));
    }
}

/// The events of a list of collection tracks, in order.
pub open spec fn tracks_events(ts: Seq<ExportTrack>) -> Seq<EventView>
    decreases ts.len(),
{
    if ts.len() == 0 {
        Seq::empty()
    } else {
        tracks_events(ts.drop_last()) + track_events(ts.last())
    }
}

/// The `<COLLECTION>` section.
pub open spec fn collection_events(ts: Seq<ExportTrack>) -> Seq<EventView> {
    seq![EventView::Start(tag_v("COLLECTION"@, seq![attr_v("Entries"@, int_display(ts.len() as int))]))]
        + tracks_events(ts) + seq![EventView::End(name_bytes("COLLECTION"@))]
}

/// The whole document after its XML declaration: `<DJ_PLAYLISTS>` with the
/// producer, the collection and the playlist tree.
pub open spec fn document_events(ts: Seq<ExportTrack>, pl: Seq<PlaylistView>) -> Seq<EventView> {
    seq![
        EventView::Start(tag_v("DJ_PLAYLISTS"@, seq![attr_v("Version"@, "1.0.0"@)])),
        EventView::Empty(tag_v("PRODUCT"@, seq![
            attr_v("Name"@, "Dub"@),
            attr_v("Version"@, crate::VERSION@),
            attr_v("Company"@, "Dub"@),
        ])),
    ] + collection_events(ts) + playlists_events(pl) + seq![EventView::End(name_bytes("DJ_PLAYLISTS"@))]
}

/// Append the `<COLLECTION>` section.
pub fn write_collection(tracks: &[ExportTrack], out: &mut Vec<XmlEvent>)
    requires
        forall|i: int| 0 <= i < tracks@.len() ==> track_colors_ok(#[trigger] tracks@[i]),
    ensures
        events_view(final(out)@) == events_view(old(out)@) + collection_events(tracks@),
{
    let ghost e0 = events_view(out@);
    let mut attrs: Vec<XmlAttr> = Vec::new();
    push_attr(&mut attrs, "Entries", usize_text(tracks.len()));
    proof {
        assert(attrs_view(attrs@) =~= seq![attr_v("Entries"@, int_display(tracks@.len() as int))]);
    }
    push_event(out, XmlEvent::Start(make_tag("COLLECTION", attrs)));
    let ghost e1 = events_view(out@);
    let mut k: usize = 0;
    proof {
        assert(tracks@.subrange(0, 0) =~= Seq::<ExportTrack>::empty());
        assert(e1 =~= e1 + tracks_events(tracks@.subrange(0, 0)));
    }
    while k < tracks.len()
        invariant
            0 <= k <= tracks@.len(),
            forall|i: int| 0 <= i < tracks@.len() ==> track_colors_ok(#[trigger] tracks@[i]),
            events_view(out@) == e1 + tracks_events(tracks@.subrange(0, k as int)),
        decreases tracks.len() - k,
    {
        write_track(&tracks[k], out);
        proof {
            let next = tracks@.subrange(0, k + 1);
            assert(next.drop_last() =~= tracks@.subrange(0, k as int));
            assert(next.last() == tracks@[k as int]);
        }
        k = k + 1;
    }
    proof {
        assert(tracks@.subrange(0, tracks@.len() as int) =~= tracks@);
    }
    push_event(out, XmlEvent::End(bytes_of("COLLECTION")));
    proof {
        assert(events_view(out@) =~= e0 + collection_events(tracks@));
    }
}

/// The element stream of a rekordbox XML document (after its declaration):
/// the collection tracks, then the playlist tree.
pub fn write_document(tracks: &[ExportTrack], playlists: &[ParsedPlaylist]) -> (out: Vec<XmlEvent>)
    requires
        forall|i: int| 0 <= i < tracks@.len() ==> track_colors_ok(#[trigger] tracks@[i]),
        parents_precede(playlists_view(playlists@)),
    ensures
        events_view(out@) == document_events(tracks@, playlists_view(playlists@)),
{
    let mut out: Vec<XmlEvent> = Vec::new();
    let mut root: Vec<XmlAttr> = Vec::new();
    push_attr(&mut root, "Version", String::from_str("1.0.0"));
    proof {
        assert(attrs_view(root@) =~= seq![attr_v("Version"@, "1.0.0"@)]);
    }
    push_event(&mut out, XmlEvent::Start(make_tag("DJ_PLAYLISTS", root)));
    let mut product: Vec<XmlAttr> = Vec::new();
    push_attr(&mut product, "Name", String::from_str("Dub"));
    push_attr(&mut product, "Version", String::from_str(crate::VERSION));
    push_attr(&mut product, "Company", String::from_str("Dub"));
    proof {
        assert(attrs_view(product@) =~= seq![
            attr_v("Name"@, "Dub"@),
            attr_v("Version"@, crate::VERSION@),
            attr_v("Company"@, "Dub"@),
        ]);
    }
    push_event(&mut out, XmlEvent::Empty(make_tag("PRODUCT", product)));
    let ghost e0 = events_view(out@);
    write_collection(tracks, &mut out);
    write_playlists(playlists, &mut out);
    push_event(&mut out, XmlEvent::End(bytes_of("DJ_PLAYLISTS")));
    proof {
        assert(events_view(out@) =~= document_events(tracks@, playlists_view(playlists@)));
    }
    out
}

} // verus!
