//! rekordbox `rekordbox.xml` (`DJ_PLAYLISTS`) reader.
//!
//! The document is read as a stream of XML events. `<TRACK>` means a
//! collection track inside `<COLLECTION>` (self-closing, or a container of
//! `<TEMPO>` / `<POSITION_MARK>` children) and a membership reference inside
//! `<PLAYLISTS>`, where nested `<NODE>`s form the folder / playlist tree:
//! `Type="0"` is a folder (the top `ROOT` folder is transparent), `Type="1"`
//! a playlist whose `<TRACK Key=".."/>` children name collection tracks by
//! `TrackID` (under `KeyType="0"`, the default).
//!
//! The reader keeps each collection track as its tag and its grid / marker
//! children; the per-field readers below turn those into values (the
//! fractional-second and tempo attributes are read by the caller).

use vstd::prelude::*;
use crate::xml::{xml_tokens, tokenize, XmlTag, XmlEvent, TagView, EventView, events_view, tags_view, name_bytes, attr_spec, opt_text, attr, name_is, clone_tag};
use crate::text::{str_eq, string_of};
use crate::num::{int_in_range, parse_i64, parse_i32, parse_u8};
use crate::file_url::{file_url_path, decode_file_url, hex_upper};
use crate::color_label::{hex_rgb, rgb_token, hex_token};

verus! {

/// One collection track as the document holds it: its `<TRACK>` tag and its
/// `<TEMPO>` / `<POSITION_MARK>` children, in document order.
#[derive(Debug, Clone)]
pub struct RawTrack {
    /// The `<TRACK>` element.
    pub tag: XmlTag,
    /// Its `<TEMPO>` and `<POSITION_MARK>` children.
    pub children: Vec<XmlTag>,
}

/// One node of the `<PLAYLISTS>` tree: a folder or a playlist. `parent` is
/// the index of the enclosing folder in the playlist list (a parent precedes
/// its children), `None` at the top level. The `ROOT` folder is not listed.
#[derive(Debug, Clone)]
pub struct ParsedPlaylist {
    /// Display name (`NODE Name`).
    pub name: String,
    /// Index of the enclosing folder.
    pub parent: Option<usize>,
    /// Member `TrackID`s in playlist order.
    pub track_ids: Vec<i64>,
}

/// The document read: its collection tracks and its playlist tree.
#[derive(Debug, Clone)]
pub struct RekordboxDocument {
    /// Collection tracks, in document order.
    pub tracks: Vec<RawTrack>,
    /// Playlist / folder tree, in document order.
    pub playlists: Vec<ParsedPlaylist>,
}

/// A hard XML error met while reading.
#[derive(Debug, Clone)]
pub struct ParseError(pub String);

impl ParseError {
    /// The error as text, `rekordbox xml parse: <reason>`.
    pub fn message(&self) -> (r: String)
        ensures
            r@ == "rekordbox xml parse: "@ + self.0@,
    {
        let mut s = String::from_str("rekordbox xml parse: ");
        s.append(self.0.as_str());
        s
    }
}

/// One open `<NODE>` while walking the tree: the playlist-list row it made
/// (so children find their parent), whether it is a playlist (so its
/// `<TRACK>` children are members), and whether its member keys are
/// `TrackID`s.
#[derive(Debug, Clone, Copy)]
pub struct NodeFrame {
    pub crate_index: Option<usize>,
    pub is_playlist: bool,
    pub keys_are_ids: bool,
}

#[verifier::ext_equal]
pub struct RawTrackView {
    pub tag: TagView,
    pub children: Seq<TagView>,
}

#[verifier::ext_equal]
pub struct PlaylistView {
    pub name: Seq<char>,
    pub parent: Option<usize>,
    pub track_ids: Seq<i64>,
}

#[verifier::ext_equal]
pub struct DocView {
    pub tracks: Seq<RawTrackView>,
    pub playlists: Seq<PlaylistView>,
}

impl View for RawTrack {
    type V = RawTrackView;

    open spec fn view(&self) -> RawTrackView {
        RawTrackView { tag: self.tag@, children: tags_view(self.children@) }
    }
}

impl View for ParsedPlaylist {
    type V = PlaylistView;

    open spec fn view(&self) -> PlaylistView {
        PlaylistView { name: self.name@, parent: self.parent, track_ids: self.track_ids@ }
    }
}

impl View for RekordboxDocument {
    type V = DocView;

    open spec fn view(&self) -> DocView {
        DocView {
            tracks: self.tracks@.map_values(|t: RawTrack| t@),
            playlists: self.playlists@.map_values(|p: ParsedPlaylist| p@),
        }
    }
}

/// The reader's state between two events.
#[verifier::ext_equal]
pub struct ReadState {
    pub in_collection: bool,
    pub in_playlists: bool,
    pub current: Option<RawTrackView>,
    pub stack: Seq<NodeFrame>,
    pub doc: DocView,
}

/// The state before the first event.
pub open spec fn initial_state() -> ReadState {
    ReadState {
        in_collection: false,
        in_playlists: false,
        current: None,
        stack: Seq::empty(),
        doc: DocView { tracks: Seq::empty(), playlists: Seq::empty() },
    }
}

/// The text of an optional attribute value, empty when absent.
pub open spec fn or_empty(o: Option<Seq<char>>) -> Seq<char> {
    match o {
        Some(s) => s,
        None => Seq::empty(),
    }
}

/// The nearest enclosing node that made a row: the innermost frame with a
/// row index.
pub open spec fn enclosing_row(stack: Seq<NodeFrame>) -> Option<usize>
    decreases stack.len(),
{
    if stack.len() == 0 {
        None
    } else if stack.last().crate_index.is_some() {
        stack.last().crate_index
    } else {
        enclosing_row(stack.drop_last())
    }
}

/// Opening a `<NODE>`: a folder (`Type="0"`, but not `ROOT`) or a playlist
/// (`Type="1"`) appends a row under the nearest enclosing row; the frame
/// records the row and, for a playlist, whether its keys are `TrackID`s
/// (`KeyType` absent or `"0"`). Any other node makes no row.
pub open spec fn open_node_spec(t: TagView, doc: DocView, stack: Seq<NodeFrame>) -> (DocView, NodeFrame) {
    let node_type = or_empty(attr_spec(t.attrs, name_bytes("Type"@)));
    let name = or_empty(attr_spec(t.attrs, name_bytes("Name"@)));
    let row = PlaylistView { name, parent: enclosing_row(stack), track_ids: Seq::empty() };
    let added = DocView { tracks: doc.tracks, playlists: doc.playlists.push(row) };
    let index = Some(doc.playlists.len() as usize);
    if node_type == "0"@ && name != "ROOT"@ {
        (added, NodeFrame { crate_index: index, is_playlist: false, keys_are_ids: false })
    } else if node_type == "1"@ {
        let key_type = attr_spec(t.attrs, name_bytes("KeyType"@));
        let ids = match key_type {
            None => true,
            Some(k) => k == "0"@,
        };
        (added, NodeFrame { crate_index: index, is_playlist: true, keys_are_ids: ids })
    } else {
        (doc, NodeFrame { crate_index: None, is_playlist: false, keys_are_ids: false })
    }
}

/// A `<TRACK Key=".."/>` inside the innermost node: appended to that node's
/// row when the node is an id-keyed playlist and the key is an integer.
pub open spec fn add_member_spec(t: TagView, doc: DocView, stack: Seq<NodeFrame>) -> DocView {
    if stack.len() == 0 {
        doc
    } else {
        let frame = stack.last();
        let key = attr_spec(t.attrs, name_bytes("Key"@));
        if !frame.is_playlist || !frame.keys_are_ids || frame.crate_index.is_none() {
            doc
        } else if key.is_none() || int_in_range(key.unwrap(), true, i64::MIN as int, i64::MAX as int).is_none() {
            doc
        } else {
            let idx = frame.crate_index.unwrap() as int;
            if 0 <= idx < doc.playlists.len() {
                let id = int_in_range(key.unwrap(), true, i64::MIN as int, i64::MAX as int).unwrap() as i64;
                let p = doc.playlists[idx];
                let q = PlaylistView { name: p.name, parent: p.parent, track_ids: p.track_ids.push(id) };
                DocView { tracks: doc.tracks, playlists: doc.playlists.update(idx, q) }
            } else {
                doc
            }
        }
    }
}

/// A grid or marker child of a collection track.
pub open spec fn is_track_child(name: Seq<u8>) -> bool {
    name == name_bytes("TEMPO"@) || name == name_bytes("POSITION_MARK"@)
}

/// A child element folded into the track being read, if any.
pub open spec fn with_child(s: ReadState, t: TagView) -> ReadState {
    if s.in_collection && s.current.is_some() && is_track_child(t.name) {
        let cur = s.current.unwrap();
        ReadState {
            current: Some(RawTrackView { tag: cur.tag, children: cur.children.push(t) }),
            ..s
        }
    } else {
        s
    }
}

/// The reader's response to one event.
pub open spec fn step(s: ReadState, e: EventView) -> ReadState {
    match e {
        EventView::Start(t) => {
            if t.name == name_bytes("COLLECTION"@) {
                ReadState { in_collection: true, ..s }
            } else if t.name == name_bytes("PLAYLISTS"@) {
                ReadState { in_playlists: true, ..s }
            } else if t.name == name_bytes("TRACK"@) && s.in_collection {
                ReadState { current: Some(RawTrackView { tag: t, children: Seq::empty() }), ..s }
            } else if t.name == name_bytes("NODE"@) && s.in_playlists {
                let (doc, frame) = open_node_spec(t, s.doc, s.stack);
                ReadState { doc, stack: s.stack.push(frame), ..s }
            } else {
                with_child(s, t)
            }
        },
        EventView::Empty(t) => {
            if t.name == name_bytes("TRACK"@) && s.in_collection && s.current.is_none() {
                let doc = DocView {
                    tracks: s.doc.tracks.push(RawTrackView { tag: t, children: Seq::empty() }),
                    playlists: s.doc.playlists,
                };
                ReadState { doc, ..s }
            } else if t.name == name_bytes("NODE"@) && s.in_playlists {
                ReadState { doc: open_node_spec(t, s.doc, s.stack).0, ..s }
            } else if t.name == name_bytes("TRACK"@) && s.in_playlists {
                ReadState { doc: add_member_spec(t, s.doc, s.stack), ..s }
            } else {
                with_child(s, t)
            }
        },
        EventView::End(n) => {
            if n == name_bytes("COLLECTION"@) {
                ReadState { in_collection: false, ..s }
            } else if n == name_bytes("PLAYLISTS"@) {
                ReadState { in_playlists: false, ..s }
            } else if n == name_bytes("TRACK"@) && s.in_collection {
                match s.current {
                    Some(cur) => ReadState {
                        current: None,
                        doc: DocView { tracks: s.doc.tracks.push(cur), playlists: s.doc.playlists },
                        ..s
                    },
                    None => s,
                }
            } else if n == name_bytes("NODE"@) && s.in_playlists {
                ReadState {
                    stack: if s.stack.len() > 0 { s.stack.drop_last() } else { s.stack },
                    ..s
                }
            } else {
                s
            }
        },
        _ => s,
    }
}

/// Reading a stream from a state: the document at the end of the stream
/// (or at `Eof`), or the first hard error.
pub open spec fn run(s: ReadState, events: Seq<EventView>) -> Result<DocView, Seq<char>>
    decreases events.len(),
{
    if events.len() == 0 {
        Ok(s.doc)
    } else {
        match events[0] {
            EventView::Eof => Ok(s.doc),
            EventView::Error(m) => Err(m),
            e => run(step(s, e), events.drop_first()),
        }
    }
}

/// What a rekordbox XML event stream reads as.
pub open spec fn read_spec(events: Seq<EventView>) -> Result<DocView, Seq<char>> {
    run(initial_state(), events)
}

/// The value of an optional raw track.
pub open spec fn opt_track(o: Option<RawTrack>) -> Option<RawTrackView> {
    match o {
        Some(t) => Some(t@),
        None => None,
    }
}

fn enclosing_row_exec(stack: &Vec<NodeFrame>) -> (r: Option<usize>)
    ensures
        r == enclosing_row(stack@),
{
    let mut k: usize = stack.len();
    proof {
        assert(stack@.subrange(0, stack@.len() as int) =~= stack@);
    }
    while k > 0
        invariant
            0 <= k <= stack@.len(),
            enclosing_row(stack@) == enclosing_row(stack@.subrange(0, k as int)),
        decreases k,
    {
        proof {
            assert(stack@.subrange(0, k as int).drop_last() =~= stack@.subrange(0, k - 1));
            assert(stack@.subrange(0, k as int).last() == stack@[k - 1]);
        }
        if stack[k - 1].crate_index.is_some() {
            return stack[k - 1].crate_index;
        }
        k = k - 1;
    }
    None
}

/// Open a `<NODE>`: append its row (folder or playlist) and return its frame.
fn open_node(t: &XmlTag, out: &mut RekordboxDocument, stack: &Vec<NodeFrame>) -> (frame: NodeFrame)
    ensures
        (final(out)@, frame) == open_node_spec(t@, old(out)@, stack@),
{
    let node_type = match attr(t, "Type") {
        Some(s) => s,
        None => String::new(),
    };
    let name = match attr(t, "Name") {
        Some(s) => s,
        None => String::new(),
    };
    let parent = enclosing_row_exec(stack);
    proof {
        reveal_strlit("0");
        reveal_strlit("1");
        assert("0"@[0] != "1"@[0]);
        assert("0"@ != "1"@);
    }
    let is_folder = str_eq(node_type.as_str(), "0") && !str_eq(name.as_str(), "ROOT");
    let is_playlist = str_eq(node_type.as_str(), "1");
    if is_folder || is_playlist {
        let keys_are_ids = if is_playlist {
            match attr(t, "KeyType") {
                None => true,
                Some(k) => str_eq(k.as_str(), "0"),
            }
        } else {
            false
        };
        let index = out.playlists.len();
        out.playlists.push(ParsedPlaylist { name, parent, track_ids: Vec::new() });
        proof {
            let spec = open_node_spec(t@, old(out)@, stack@);
            assert(out@.playlists =~= old(out)@.playlists.push(out.playlists@[index as int]@));
            assert(out@.playlists =~= spec.0.playlists);
            assert(out@.tracks =~= spec.0.tracks);
            assert(out@ =~= spec.0);
            assert(spec.1.crate_index == Some(index));
            assert(spec.1.is_playlist == is_playlist);
            assert(spec.1.keys_are_ids == keys_are_ids);
        }
        NodeFrame { crate_index: Some(index), is_playlist, keys_are_ids }
    } else {
        NodeFrame { crate_index: None, is_playlist: false, keys_are_ids: false }
    }
}

/// Add a `<TRACK Key=".."/>` membership reference to the innermost node.
fn add_member(t: &XmlTag, out: &mut RekordboxDocument, stack: &Vec<NodeFrame>)
    ensures
        final(out)@ == add_member_spec(t@, old(out)@, stack@),
{
    if stack.len() == 0 {
        return;
    }
    let frame = stack[stack.len() - 1];
    if !frame.is_playlist || !frame.keys_are_ids {
        return;
    }
    let idx = match frame.crate_index {
        Some(i) => i,
        None => return,
    };
    let key = match attr(t, "Key") {
        Some(k) => k,
        None => return,
    };
    let id = match parse_i64(key.as_str()) {
        Some(id) => id,
        None => return,
    };
    if idx >= out.playlists.len() {
        return;
    }
    let ghost before = out@;
    let mut row = ParsedPlaylist { name: String::new(), parent: None, track_ids: Vec::new() };
    std::mem::swap(&mut row, &mut out.playlists[idx]);
    row.track_ids.push(id);
    std::mem::swap(&mut row, &mut out.playlists[idx]);
    proof {
        assert(out@.playlists =~= before.playlists.update(idx as int, out.playlists@[idx as int]@));
        assert(out@.tracks =~= before.tracks);
    }
}

/// A present, non-empty attribute value (rekordbox writes `""` for unset).
pub open spec fn present(o: Option<Seq<char>>) -> Option<Seq<char>> {
    match o {
        Some(s) => if s.len() > 0 { Some(s) } else { None },
        None => None,
    }
}

/// An attribute value read as an `i64`.
pub open spec fn as_i64(o: Option<Seq<char>>) -> Option<int> {
    match o {
        Some(s) => int_in_range(s, true, i64::MIN as int, i64::MAX as int),
        None => None,
    }
}

/// An attribute value read as an `i32`, with `0` dropped when `drop_zero`.
pub open spec fn as_i32(o: Option<Seq<char>>, drop_zero: bool) -> Option<int> {
    match o {
        Some(s) => match int_in_range(s, true, i32::MIN as int, i32::MAX as int) {
            Some(n) => if drop_zero && n == 0 { None } else { Some(n) },
            None => None,
        },
        None => None,
    }
}

/// An attribute value read as a `u8`.
pub open spec fn as_u8(o: Option<Seq<char>>) -> Option<int> {
    match o {
        Some(s) => int_in_range(s, false, 0, 255),
        None => None,
    }
}

/// The value of the attribute `key` of a tag.
pub open spec fn tag_attr(t: TagView, key: Seq<char>) -> Option<Seq<char>> {
    attr_spec(t.attrs, name_bytes(key))
}

/// Non-empty attribute value, or `None`.
pub fn attr_present(t: &XmlTag, key: &str) -> (r: Option<String>)
    ensures
        opt_text(r) == present(tag_attr(t@, key@)),
{
    match attr(t, key) {
        Some(s) => {
            if s.as_str().is_empty() {
                None
            } else {
                Some(s)
            }
        },
        None => None,
    }
}

/// An integer attribute, dropping rekordbox's `0` "unset" sentinel when
/// `drop_zero` is set (`Year`, `TrackNumber`).
pub fn attr_int(t: &XmlTag, key: &str, drop_zero: bool) -> (r: Option<i32>)
    ensures
        r.is_some() == as_i32(tag_attr(t@, key@), drop_zero).is_some(),
        r matches Some(n) ==> n == as_i32(tag_attr(t@, key@), drop_zero).unwrap(),
{
    match attr(t, key) {
        Some(s) => match parse_i32(s.as_str()) {
            Some(n) => if drop_zero && n == 0 { None } else { Some(n) },
            None => None,
        },
        None => None,
    }
}

/// The integer-and-text fields of a collection `<TRACK>` (its fractional
/// tempo and length are read by the caller).
#[derive(Debug, Clone)]
pub struct TrackFields {
    /// `TrackID`, `0` when absent or not an integer.
    pub track_id: i64,
    /// Absolute path decoded from the `Location` `file://` URL.
    pub path: Option<String>,
    /// `Name`.
    pub title: Option<String>,
    /// `Artist`.
    pub artist: Option<String>,
    /// `Album`.
    pub album: Option<String>,
    /// `Genre`.
    pub genre: Option<String>,
    /// `Composer`.
    pub composer: Option<String>,
    /// `Comments`.
    pub comment: Option<String>,
    /// `Year` (0 dropped).
    pub year: Option<i32>,
    /// `TrackNumber` (0 dropped).
    pub track_number: Option<i32>,
    /// `Tonality`, verbatim (empty dropped).
    pub key: Option<String>,
    /// Star rating 0 to 5 from the 0 to 255 `Rating` (in steps of 51).
    pub rating: Option<i32>,
    /// Palette token of the `Colour` hex, by hue.
    pub color: Option<String>,
}

/// The stars of a 0 to 255 `Rating`: one per full 51; `None` outside that
/// range.
pub open spec fn rating_spec(v: Option<int>) -> Option<int> {
    match v {
        Some(n) => if 0 <= n <= 255 { Some(n / 51) } else { None },
        None => None,
    }
}

/// The palette token of a `Colour` hex attribute, by hue.
pub open spec fn colour_spec(o: Option<Seq<char>>) -> Option<Seq<char>> {
    match o {
        Some(s) => match hex_rgb(s) {
            Some((r, g, b)) => rgb_token(r, g, b),
            None => None,
        },
        None => None,
    }
}

/// The star rating of a track's `Rating` attribute.
pub fn attr_rating(t: &XmlTag) -> (r: Option<i32>)
    ensures
        opt_int(r) == rating_spec(as_i64(tag_attr(t@, "Rating"@))),
{
    match attr(t, "Rating") {
        Some(s) => match parse_i64(s.as_str()) {
            Some(n) => if 0 <= n && n <= 255 { Some((n / 51) as i32) } else { None },
            None => None,
        },
        None => None,
    }
}

/// The palette token of a track's `Colour` attribute.
pub fn attr_colour(t: &XmlTag) -> (r: Option<String>)
    ensures
        opt_text(r) == colour_spec(tag_attr(t@, "Colour"@)),
{
    match attr(t, "Colour") {
        Some(s) => match hex_token(s.as_str()) {
            Some(tok) => Some(tok.to_string()),
            None => None,
        },
        None => None,
    }
}

/// The opt-int value of an `Option<i32>`.
pub open spec fn opt_int(o: Option<i32>) -> Option<int> {
    match o {
        Some(n) => Some(n as int),
        None => None,
    }
}

/// The path a `Location` names.
pub open spec fn location_path(o: Option<Seq<char>>) -> Option<Seq<char>> {
    match o {
        Some(u) => file_url_path(u),
        None => None,
    }
}

/// Read the integer-and-text fields of a collection `<TRACK>`.
pub fn track_fields(t: &XmlTag) -> (f: TrackFields)
    ensures
        f.track_id as int == (match as_i64(tag_attr(t@, "TrackID"@)) { Some(n) => n, None => 0 }),
        opt_text(f.path) == location_path(tag_attr(t@, "Location"@)),
        opt_text(f.title) == present(tag_attr(t@, "Name"@)),
        opt_text(f.artist) == present(tag_attr(t@, "Artist"@)),
        opt_text(f.album) == present(tag_attr(t@, "Album"@)),
        opt_text(f.genre) == present(tag_attr(t@, "Genre"@)),
        opt_text(f.composer) == present(tag_attr(t@, "Composer"@)),
        opt_text(f.comment) == present(tag_attr(t@, "Comments"@)),
        opt_int(f.year) == as_i32(tag_attr(t@, "Year"@), true),
        opt_int(f.track_number) == as_i32(tag_attr(t@, "TrackNumber"@), true),
        opt_text(f.key) == present(tag_attr(t@, "Tonality"@)),
        opt_int(f.rating) == rating_spec(as_i64(tag_attr(t@, "Rating"@))),
        opt_text(f.color) == colour_spec(tag_attr(t@, "Colour"@)),
{
    let track_id = match attr(t, "TrackID") {
        Some(s) => match parse_i64(s.as_str()) {
            Some(n) => n,
            None => 0,
        },
        None => 0,
    };
    let path = match attr(t, "Location") {
        Some(u) => decode_file_url(u.as_str()),
        None => None,
    };
    TrackFields {
        track_id,
        path,
        title: attr_present(t, "Name"),
        artist: attr_present(t, "Artist"),
        album: attr_present(t, "Album"),
        genre: attr_present(t, "Genre"),
        composer: attr_present(t, "Composer"),
        comment: attr_present(t, "Comments"),
        year: attr_int(t, "Year", true),
        track_number: attr_int(t, "TrackNumber", true),
        key: attr_present(t, "Tonality"),
        rating: attr_rating(t),
        color: attr_colour(t),
    }
}

/// What a `<POSITION_MARK>` is: `Type` 4 is a loop, 0 (or no readable
/// type) a cue; 1 and 2 (fades) and 3 (load) are not surfaced.
#[derive(Debug, Clone, Copy, PartialEq, Eq, Structural)]
pub enum MarkKind {
    /// A hot or memory cue.
    Cue,
    /// A stored loop.
    Loop,
    /// A fade or load marker.
    Skipped,
}

/// The integer-and-text fields of a `<POSITION_MARK>` (its start and end
/// seconds are read by the caller).
#[derive(Debug, Clone)]
pub struct MarkFields {
    /// Cue, loop or skipped.
    pub kind: MarkKind,
    /// Hot-cue pad slot (`Num` 0 to 255), `None` for a memory marker.
    pub hotcue: Option<u8>,
    /// Marker label, if any.
    pub name: Option<String>,
    /// `#RRGGBB` from `Red` / `Green` / `Blue`, when all three are present.
    pub color: Option<String>,
}

/// The kind a mark's `Type` gives.
pub open spec fn mark_kind_spec(mark_type: Option<int>) -> MarkKind {
    match mark_type {
        Some(n) => if n == 4 { MarkKind::Loop } else if n == 0 { MarkKind::Cue } else { MarkKind::Skipped },
        None => MarkKind::Cue,
    }
}

/// The pad slot a mark's `Num` gives: a non-negative number that fits a
/// byte.
pub open spec fn hotcue_spec(num: Option<int>) -> Option<u8> {
    match num {
        Some(n) => if 0 <= n <= 255 { Some(n as u8) } else { None },
        None => None,
    }
}

/// `#RRGGBB` in upper-case hex.
pub open spec fn color_text(r: u8, g: u8, b: u8) -> Seq<char> {
    seq!['#', hex_upper(r / 16), hex_upper(r % 16), hex_upper(g / 16), hex_upper(g % 16), hex_upper(b / 16), hex_upper(b % 16)]
}

/// The colour of a mark: all three channels present and bytes.
pub open spec fn mark_color_spec(t: TagView) -> Option<Seq<char>> {
    match (as_u8(tag_attr(t, "Red"@)), as_u8(tag_attr(t, "Green"@)), as_u8(tag_attr(t, "Blue"@))) {
        (Some(r), Some(g), Some(b)) => Some(color_text(r as u8, g as u8, b as u8)),
        _ => None,
    }
}

fn hex_upper_char(n: u8) -> (c: char)
    requires
        n < 16,
    ensures
        c == hex_upper(n),
{
    if n < 10 {
        crate::text::char_from_u32((n as u32) + 0x30)
    } else {
        crate::text::char_from_u32((n as u32) + 0x37)
    }
}

/// `#RRGGBB` from three channels.
pub fn color_string(r: u8, g: u8, b: u8) -> (s: String)
    ensures
        s@ == color_text(r, g, b),
{
    let mut v: Vec<char> = Vec::new();
    v.push('#');
    v.push(hex_upper_char(r / 16));
    v.push(hex_upper_char(r % 16));
    v.push(hex_upper_char(g / 16));
    v.push(hex_upper_char(g % 16));
    v.push(hex_upper_char(b / 16));
    v.push(hex_upper_char(b % 16));
    proof {
        assert(v@ =~= color_text(r, g, b));
    }
    string_of(&v)
}

fn attr_u8(t: &XmlTag, key: &str) -> (r: Option<u8>)
    ensures
        r.is_some() == as_u8(tag_attr(t@, key@)).is_some(),
        r matches Some(n) ==> n == as_u8(tag_attr(t@, key@)).unwrap(),
{
    match attr(t, key) {
        Some(s) => parse_u8(s.as_str()),
        None => None,
    }
}

fn attr_i64(t: &XmlTag, key: &str) -> (r: Option<i64>)
    ensures
        r.is_some() == as_i64(tag_attr(t@, key@)).is_some(),
        r matches Some(n) ==> n == as_i64(tag_attr(t@, key@)).unwrap(),
{
    match attr(t, key) {
        Some(s) => parse_i64(s.as_str()),
        None => None,
    }
}

/// `#RRGGBB` from a mark's `Red` / `Green` / `Blue`, or `None` if any is
/// missing or not a byte.
pub fn parse_color(t: &XmlTag) -> (c: Option<String>)
    ensures
        opt_text(c) == mark_color_spec(t@),
{
    let r = attr_u8(t, "Red");
    let g = attr_u8(t, "Green");
    let b = attr_u8(t, "Blue");
    match (r, g, b) {
        (Some(r), Some(g), Some(b)) => Some(color_string(r, g, b)),
        _ => None,
    }
}

/// Read the integer-and-text fields of a `<POSITION_MARK>`.
pub fn mark_fields(t: &XmlTag) -> (m: MarkFields)
    ensures
        m.kind == mark_kind_spec(as_i64(tag_attr(t@, "Type"@))),
        m.hotcue == hotcue_spec(as_i64(tag_attr(t@, "Num"@))),
        opt_text(m.name) == present(tag_attr(t@, "Name"@)),
        opt_text(m.color) == mark_color_spec(t@),
{
    let kind = match attr_i64(t, "Type") {
        Some(n) => if n == 4 { MarkKind::Loop } else if n == 0 { MarkKind::Cue } else { MarkKind::Skipped },
        None => MarkKind::Cue,
    };
    let hotcue = match attr_i64(t, "Num") {
        Some(n) => if 0 <= n && n <= 255 { Some(n as u8) } else { None },
        None => None,
    };
    MarkFields { kind, hotcue, name: attr_present(t, "Name"), color: parse_color(t) }
}

/// The 0-based beat-in-bar of a `<TEMPO>`: `Battito` (1 to 4, default 1)
/// clamped to that range, minus one.
pub open spec fn bar_phase_spec(battito: Option<int>) -> u8 {
    let b = match battito {
        Some(n) => n,
        None => 1,
    };
    if b < 1 { 0 } else if b > 4 { 3 } else { (b - 1) as u8 }
}

/// Read the bar phase of a `<TEMPO>`.
pub fn bar_phase(t: &XmlTag) -> (p: u8)
    ensures
        p == bar_phase_spec(as_i64(tag_attr(t@, "Battito"@))),
        p <= 3,
{
    let b: i64 = match attr_i64(t, "Battito") {
        Some(n) => n,
        None => 1,
    };
    if b < 1 {
        0
    } else if b > 4 {
        3
    } else {
        (b - 1) as u8
    }
}

/// The reader's state while it walks the stream.
struct Reader {
    in_collection: bool,
    in_playlists: bool,
    current: Option<RawTrack>,
    stack: Vec<NodeFrame>,
    out: RekordboxDocument,
}

impl View for Reader {
    type V = ReadState;

    closed spec fn view(&self) -> ReadState {
        ReadState {
            in_collection: self.in_collection,
            in_playlists: self.in_playlists,
            current: opt_track(self.current),
            stack: self.stack@,
            doc: self.out@,
        }
    }
}

/// Fold a child element into the track being read.
fn add_child(r: &mut Reader, t: &XmlTag)
    ensures
        final(r)@ == with_child(old(r)@, t@),
{
    if !r.in_collection {
        return;
    }
    let child = name_is(t.name.as_slice(), "TEMPO") || name_is(t.name.as_slice(), "POSITION_MARK");
    if !child {
        return;
    }
    let mut cur: Option<RawTrack> = None;
    std::mem::swap(&mut cur, &mut r.current);
    match cur {
        Some(mut c) => {
            let ghost before = c@;
            c.children.push(clone_tag(t));
            proof {
                assert(c@.children =~= before.children.push(t@));
            }
            r.current = Some(c);
            proof {
                assert(r@ =~= with_child(old(r)@, t@));
            }
        },
        None => {
            r.current = None;
            proof {
                assert(r@ =~= old(r)@);
            }
        },
    }
}

/// The reader's response to one event other than the end or an error.
fn step_exec(r: &mut Reader, e: &XmlEvent)
    ensures
        final(r)@ == step(old(r)@, e@),
{
    match e {
        XmlEvent::Start(t) => {
            if name_is(t.name.as_slice(), "COLLECTION") {
                r.in_collection = true;
                proof { assert(r@ =~= step(old(r)@, e@)); }
            } else if name_is(t.name.as_slice(), "PLAYLISTS") {
                r.in_playlists = true;
                proof { assert(r@ =~= step(old(r)@, e@)); }
            } else if name_is(t.name.as_slice(), "TRACK") && r.in_collection {
                r.current = Some(RawTrack { tag: clone_tag(t), children: Vec::new() });
                proof {
                    assert(opt_track(r.current) =~= Some(RawTrackView { tag: t@, children: Seq::empty() }));
                    assert(r@ =~= step(old(r)@, e@));
                }
            } else if name_is(t.name.as_slice(), "NODE") && r.in_playlists {
                let frame = open_node(t, &mut r.out, &r.stack);
                r.stack.push(frame);
                proof { assert(r@ =~= step(old(r)@, e@)); }
            } else {
                add_child(r, t);
            }
        },
        XmlEvent::Empty(t) => {
            if name_is(t.name.as_slice(), "TRACK") && r.in_collection && r.current.is_none() {
                let ghost before = r.out@;
                let tr = RawTrack { tag: clone_tag(t), children: Vec::new() };
                proof {
                    assert(tr@.children =~= Seq::<TagView>::empty());
                    assert(tr@ =~= RawTrackView { tag: t@, children: Seq::empty() });
                }
                r.out.tracks.push(tr);
                proof {
                    assert(r.out@.tracks =~= before.tracks.push(RawTrackView { tag: t@, children: Seq::empty() }));
                    assert(r.out@.playlists =~= before.playlists);
                    assert(r@ =~= step(old(r)@, e@));
                }
            } else if name_is(t.name.as_slice(), "NODE") && r.in_playlists {
                let _ = open_node(t, &mut r.out, &r.stack);
                proof { assert(r@ =~= step(old(r)@, e@)); }
            } else if name_is(t.name.as_slice(), "TRACK") && r.in_playlists {
                add_member(t, &mut r.out, &r.stack);
                proof { assert(r@ =~= step(old(r)@, e@)); }
            } else {
                add_child(r, t);
            }
        },
        XmlEvent::End(n) => {
            if name_is(n.as_slice(), "COLLECTION") {
                r.in_collection = false;
                proof { assert(r@ =~= step(old(r)@, e@)); }
            } else if name_is(n.as_slice(), "PLAYLISTS") {
                r.in_playlists = false;
                proof { assert(r@ =~= step(old(r)@, e@)); }
            } else if name_is(n.as_slice(), "TRACK") && r.in_collection {
                let mut cur: Option<RawTrack> = None;
                std::mem::swap(&mut cur, &mut r.current);
                match cur {
                    Some(c) => {
                        let ghost before = r.out@;
                        let ghost cv = c@;
                        r.out.tracks.push(c);
                        proof {
                            assert(r.out@.tracks =~= before.tracks.push(cv));
                            assert(r.out@.playlists =~= before.playlists);
                            assert(r@ =~= step(old(r)@, e@));
                        }
                    },
                    None => {
                        proof { assert(r@ =~= step(old(r)@, e@)); }
                    },
                }
            } else if name_is(n.as_slice(), "NODE") && r.in_playlists {
                if r.stack.len() > 0 {
                    let _ = r.stack.pop();
                }
                proof { assert(r@ =~= step(old(r)@, e@)); }
            } else {
                proof { assert(r@ =~= step(old(r)@, e@)); }
            }
        },
        _ => {
            proof { assert(r@ =~= step(old(r)@, e@)); }
        },
    }
}

/// Read a rekordbox XML event stream into its collection tracks and
/// playlist tree. The stream ends at `Eof` (or where the events end); a
/// hard XML error ends the read with that error. Fields that are missing or
/// garbled are tolerated: the reading only follows the document structure.
pub fn parse_events(events: &[XmlEvent]) -> (r: Result<RekordboxDocument, ParseError>)
    ensures
        match read_spec(events_view(events@)) {
            Ok(d) => r matches Ok(doc) && doc@ == d,
            Err(m) => r matches Err(e) && e.0@ == m,
        },
{
    let ghost ev = events_view(events@);
    let mut rd = Reader {
        in_collection: false,
        in_playlists: false,
        current: None,
        stack: Vec::new(),
        out: RekordboxDocument { tracks: Vec::new(), playlists: Vec::new() },
    };
    proof {
        assert(rd@ =~= initial_state());
        assert(ev.subrange(0, ev.len() as int) =~= ev);
    }
    let mut i: usize = 0;
    while i < events.len()
        invariant
            0 <= i <= events@.len(),
            ev == events_view(events@),
            ev.len() == events@.len(),
            read_spec(ev) == run(rd@, ev.subrange(i as int, ev.len() as int)),
        decreases events.len() - i,
    {
        let ghost rest = ev.subrange(i as int, ev.len() as int);
        proof {
            assert(rest[0] == events@[i as int]@);
            assert(rest.drop_first() =~= ev.subrange(i + 1, ev.len() as int));
        }
        match &events[i] {
            XmlEvent::Eof => {
                return Ok(rd.out);
            },
            XmlEvent::Error(m) => {
                return Err(ParseError(m.clone()));
            },
            e => {
                step_exec(&mut rd, e);
            },
        }
        i = i + 1;
    }
    Ok(rd.out)
}

/// A parent always precedes its children: a row's parent, when it has one,
/// is an earlier row.
pub open spec fn parents_precede(pl: Seq<PlaylistView>) -> bool {
    forall|i: int| 0 <= i < pl.len() ==> (#[trigger] pl[i].parent matches Some(p) ==> (p as int) < i)
}

/// Every row a frame of the stack refers to is already in the document.
pub open spec fn frames_in_range(s: ReadState) -> bool {
    forall|k: int|
        0 <= k < s.stack.len() ==> ((#[trigger] s.stack[k]).crate_index matches Some(c) ==> (c as int) < s.doc.playlists.len())
}

proof fn lemma_enclosing_in_range(s: ReadState, stack: Seq<NodeFrame>)
    requires
        frames_in_range(s),
        stack.len() <= s.stack.len(),
        stack == s.stack.subrange(0, stack.len() as int),
    ensures
        enclosing_row(stack) matches Some(c) ==> (c as int) < s.doc.playlists.len(),
    decreases stack.len(),
{
    if stack.len() > 0 {
        assert(stack.last() == s.stack[stack.len() - 1]);
        assert(stack.drop_last() =~= s.stack.subrange(0, stack.len() - 1));
        lemma_enclosing_in_range(s, stack.drop_last());
    }
}

proof fn lemma_step_keeps_order(s: ReadState, e: EventView)
    requires
        parents_precede(s.doc.playlists),
        frames_in_range(s),
    ensures
        parents_precede(step(s, e).doc.playlists),
        frames_in_range(step(s, e)),
{
    assert(s.stack.subrange(0, s.stack.len() as int) =~= s.stack);
    lemma_enclosing_in_range(s, s.stack);
    let n = s.doc.playlists.len();
    let t = step(s, e);
    assert forall|k: int| 0 <= k < t.stack.len() implies ((#[trigger] t.stack[k]).crate_index matches Some(c) ==> (c as int)
        < t.doc.playlists.len()) by {
        if k < s.stack.len() && t.stack[k] == s.stack[k] {
            assert(s.stack[k].crate_index matches Some(c) ==> (c as int) < n);
        }
    }
}

/// Whatever the reader reads, every playlist row comes after its parent.
pub proof fn lemma_read_parents_precede(events: Seq<EventView>)
    ensures
        read_spec(events) matches Ok(d) ==> parents_precede(d.playlists),
{
    lemma_run_keeps_order(initial_state(), events);
}

proof fn lemma_run_keeps_order(s: ReadState, events: Seq<EventView>)
    requires
        parents_precede(s.doc.playlists),
        frames_in_range(s),
    ensures
        run(s, events) matches Ok(d) ==> parents_precede(d.playlists),
    decreases events.len(),
{
    if events.len() > 0 {
        lemma_step_keeps_order(s, events[0]);
        lemma_run_keeps_order(step(s, events[0]), events.drop_first());
    }
}

/// Read a rekordbox `rekordbox.xml` byte buffer: its collection tracks and
/// playlist tree, or the first hard XML error.
pub fn parse_bytes(data: &[u8]) -> (r: Result<RekordboxDocument, ParseError>)
    ensures
        match read_spec(xml_tokens(data@)) {
            Ok(d) => r matches Ok(doc) && doc@ == d,
            Err(m) => r matches Err(e) && e.0@ == m,
        },
{
    let events = tokenize(data);
    parse_events(events.as_slice())
}

} // verus!
