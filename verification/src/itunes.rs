//! iTunes / Apple Music `Library.xml` reader.
//!
//! The file is an Apple plist: a top `<dict>` whose `Tracks` key holds a
//! dict of `trackID -> <dict>` and whose `Playlists` key holds an array of
//! playlist `<dict>`s. Values pair as `<key>NAME</key>` followed by a value
//! element (`<string>`, `<integer>`, `<date>`, `<true/>`, `<dict>`,
//! `<array>`, ...). iTunes has no beat grids or cues: only metadata and
//! playlists. The stream is read event by event; a framing error ends the
//! read with that error, a missing field is simply absent.
//!
//! Positions index the event stream; at or past its end, and at `Eof`, the
//! stream reads as `Eof` without advancing.

use vstd::prelude::*;
use crate::xml::{xml_tokens, tokenize, XmlEvent, EventView, events_view, name_bytes, name_is, bytes_eq};
use crate::text::{trim, chars_of, trim_bounds, str_eq};
use crate::num::{int_in_range, parse_i64, parse_i32};
use crate::file_url::{file_url_path, decode_file_url};
use crate::filename_parser::opt_view;

verus! {

/// A hard error while reading the library.
#[derive(Debug, Clone)]
pub struct ParseError(pub String);

impl ParseError {
    /// The error as text, `itunes plist parse: <reason>`.
    pub fn message(&self) -> (r: String)
        ensures
            r@ == "itunes plist parse: "@ + self.0@,
    {
        let mut s = String::from_str("itunes plist parse: ");
        s.append(self.0.as_str());
        s
    }
}

/// The event at a position (`Eof` at and past the end).
pub open spec fn ev(e: Seq<EventView>, i: int) -> EventView {
    if 0 <= i < e.len() {
        e[i]
    } else {
        EventView::Eof
    }
}

/// The position after reading the event at `i`: the next one, except that
/// `Eof` is never consumed.
pub open spec fn next(e: Seq<EventView>, i: int) -> int {
    if ev(e, i) is Eof {
        i
    } else {
        i + 1
    }
}

/// Text content up to the closing tag `end` (or the end of the stream): the
/// character data in between, concatenated; a piece that does not unescape,
/// or a hard error, fails.
pub open spec fn read_text_spec(e: Seq<EventView>, i: int, end: Seq<u8>, acc: Seq<char>) -> Result<(Seq<char>, int), Seq<char>>
    decreases e.len() - i,
{
    if i < 0 || i >= e.len() {
        Ok((acc, i))
    } else {
        match e[i] {
            EventView::Eof => Ok((acc, i)),
            EventView::Error(m) => Err(m),
            EventView::BadText(m) => Err(m),
            EventView::Text(t) => read_text_spec(e, i + 1, end, acc + t),
            EventView::End(n) => if n == end { Ok((acc, i + 1)) } else { read_text_spec(e, i + 1, end, acc) },
            _ => read_text_spec(e, i + 1, end, acc),
        }
    }
}

/// The next `<key>` text within a dict, or `None` at the dict's closing tag
/// (or the end of the stream).
pub open spec fn read_key_spec(e: Seq<EventView>, i: int) -> Result<(Option<Seq<char>>, int), Seq<char>>
    decreases e.len() - i,
{
    if i < 0 || i >= e.len() {
        Ok((None, i))
    } else {
        match e[i] {
            EventView::Eof => Ok((None, i)),
            EventView::Error(m) => Err(m),
            EventView::End(n) => if n == name_bytes("dict"@) { Ok((None, i + 1)) } else { read_key_spec(e, i + 1) },
            EventView::Start(t) => if t.name == name_bytes("key"@) {
                match read_text_spec(e, i + 1, name_bytes("key"@), Seq::empty()) {
                    Ok((k, j)) => Ok((Some(k), j)),
                    Err(m) => Err(m),
                }
            } else {
                read_key_spec(e, i + 1)
            },
            _ => read_key_spec(e, i + 1),
        }
    }
}

/// A value after a key: a scalar's text, a container marker, a boolean, or
/// nothing (the end of the stream).
pub enum ValueSpec {
    Scalar(Seq<char>),
    Dict,
    Array,
    Bool(bool),
    Nothing,
}

/// The value element that follows a key.
pub open spec fn read_value_spec(e: Seq<EventView>, i: int) -> Result<(ValueSpec, int), Seq<char>>
    decreases e.len() - i,
{
    if i < 0 || i >= e.len() {
        Ok((ValueSpec::Nothing, i))
    } else {
        match e[i] {
            EventView::Eof => Ok((ValueSpec::Nothing, i)),
            EventView::Error(m) => Err(m),
            EventView::Empty(t) => Ok((
                if t.name == name_bytes("true"@) {
                    ValueSpec::Bool(true)
                } else if t.name == name_bytes("false"@) {
                    ValueSpec::Bool(false)
                } else {
                    ValueSpec::Scalar(Seq::empty())
                },
                i + 1,
            )),
            EventView::Start(t) => if t.name == name_bytes("dict"@) {
                Ok((ValueSpec::Dict, i + 1))
            } else if t.name == name_bytes("array"@) {
                Ok((ValueSpec::Array, i + 1))
            } else {
                match read_text_spec(e, i + 1, t.name, Seq::empty()) {
                    Ok((s, j)) => Ok((ValueSpec::Scalar(s), j)),
                    Err(m) => Err(m),
                }
            },
            _ => read_value_spec(e, i + 1),
        }
    }
}

/// Consume a container to its matching close tag, nesting counted by `depth`.
pub open spec fn skip_container_spec(e: Seq<EventView>, i: int, tag: Seq<u8>, depth: nat) -> Result<int, Seq<char>>
    decreases e.len() - i,
{
    if i < 0 || i >= e.len() {
        Ok(i)
    } else {
        match e[i] {
            EventView::Eof => Ok(i),
            EventView::Error(m) => Err(m),
            EventView::Start(t) => if t.name == tag {
                skip_container_spec(e, i + 1, tag, depth + 1)
            } else {
                skip_container_spec(e, i + 1, tag, depth)
            },
            EventView::End(n) => if n == tag {
                if depth <= 1 { Ok(i + 1) } else { skip_container_spec(e, i + 1, tag, (depth - 1) as nat) }
            } else {
                skip_container_spec(e, i + 1, tag, depth)
            },
            _ => skip_container_spec(e, i + 1, tag, depth),
        }
    }
}

/// Consume one value, a scalar or a whole container.
pub open spec fn skip_value_spec(e: Seq<EventView>, i: int) -> Result<int, Seq<char>> {
    match read_value_spec(e, i) {
        Err(m) => Err(m),
        Ok((ValueSpec::Dict, j)) => skip_container_spec(e, j, name_bytes("dict"@), 1),
        Ok((ValueSpec::Array, j)) => skip_container_spec(e, j, name_bytes("array"@), 1),
        Ok((_, j)) => Ok(j),
    }
}

pub proof fn lemma_read_text_pos(e: Seq<EventView>, i: int, end: Seq<u8>, acc: Seq<char>)
    requires
        0 <= i <= e.len(),
    ensures
        read_text_spec(e, i, end, acc) matches Ok((_, j)) ==> i <= j <= e.len(),
    decreases e.len() - i,
{
    if 0 <= i < e.len() {
        match e[i] {
            EventView::Text(t) => lemma_read_text_pos(e, i + 1, end, acc + t),
            _ => lemma_read_text_pos(e, i + 1, end, acc),
        }
    }
}

pub proof fn lemma_read_key_pos(e: Seq<EventView>, i: int)
    requires
        0 <= i <= e.len(),
    ensures
        read_key_spec(e, i) matches Ok((k, j)) ==> (i <= j <= e.len() && (k is Some ==> i < j)),
    decreases e.len() - i,
{
    if 0 <= i < e.len() {
        lemma_read_text_pos(e, i + 1, name_bytes("key"@), Seq::empty());
        lemma_read_key_pos(e, i + 1);
    }
}

pub proof fn lemma_read_value_pos(e: Seq<EventView>, i: int)
    requires
        0 <= i <= e.len(),
    ensures
        read_value_spec(e, i) matches Ok((v, j)) ==> (i <= j <= e.len() && (!(v is Nothing) ==> i < j)),
    decreases e.len() - i,
{
    if 0 <= i < e.len() {
        match e[i] {
            EventView::Start(t) => lemma_read_text_pos(e, i + 1, t.name, Seq::empty()),
            _ => {},
        }
        lemma_read_value_pos(e, i + 1);
    }
}

pub proof fn lemma_skip_container_pos(e: Seq<EventView>, i: int, tag: Seq<u8>, depth: nat)
    requires
        0 <= i <= e.len(),
    ensures
        skip_container_spec(e, i, tag, depth) matches Ok(j) ==> i <= j <= e.len(),
    decreases e.len() - i,
{
    if 0 <= i < e.len() {
        lemma_skip_container_pos(e, i + 1, tag, depth + 1);
        lemma_skip_container_pos(e, i + 1, tag, depth);
        if depth > 1 {
            lemma_skip_container_pos(e, i + 1, tag, (depth - 1) as nat);
        }
    }
}

pub proof fn lemma_skip_value_pos(e: Seq<EventView>, i: int)
    requires
        0 <= i <= e.len(),
    ensures
        skip_value_spec(e, i) matches Ok(j) ==> i <= j <= e.len(),
{
    lemma_read_value_pos(e, i);
    if let Ok((_, j)) = read_value_spec(e, i) {
        lemma_skip_container_pos(e, j, name_bytes("dict"@), 1);
        lemma_skip_container_pos(e, j, name_bytes("array"@), 1);
    }
}

/// One track from the `Tracks` dict. `bpm` is the `BPM` text as stored
/// (iTunes writes an integer).
#[derive(Debug, Clone)]
pub struct ItunesTrack {
    /// iTunes numeric `Track ID` (referenced by playlist items).
    pub track_id: i64,
    /// `Name`.
    pub name: Option<String>,
    /// `Artist`.
    pub artist: Option<String>,
    /// `Album`.
    pub album: Option<String>,
    /// `Composer`.
    pub composer: Option<String>,
    /// `Genre`.
    pub genre: Option<String>,
    /// `BPM`, as written.
    pub bpm: Option<String>,
    /// `Year`.
    pub year: Option<i32>,
    /// `Total Time` in milliseconds.
    pub total_time_ms: Option<i64>,
    /// Absolute filesystem path, decoded from the `Location` `file://` URL.
    pub path: Option<String>,
}

/// One playlist from the `Playlists` array.
#[derive(Debug, Clone)]
pub struct ItunesPlaylist {
    /// `Name`.
    pub name: String,
    /// `Playlist Persistent ID`.
    pub persistent_id: Option<String>,
    /// `Parent Persistent ID` (set for playlists inside a folder).
    pub parent_persistent_id: Option<String>,
    /// `true` when this node is a folder (`Folder` = true).
    pub is_folder: bool,
    /// `true` for the special "Library" master playlist.
    pub is_master: bool,
    /// `true` for iTunes' built-in distinguished playlists (Music, Films,
    /// Downloaded, ...), which are not user-created.
    pub distinguished: bool,
    /// Member `Track ID`s, in playlist order.
    pub track_ids: Vec<i64>,
}

/// The library read: tracks and playlists, in document order.
#[derive(Debug, Clone)]
pub struct ItunesLibrary {
    /// Tracks.
    pub tracks: Vec<ItunesTrack>,
    /// Playlists and folders.
    pub playlists: Vec<ItunesPlaylist>,
}

#[verifier::ext_equal]
pub struct TrackView {
    pub track_id: i64,
    pub name: Option<Seq<char>>,
    pub artist: Option<Seq<char>>,
    pub album: Option<Seq<char>>,
    pub composer: Option<Seq<char>>,
    pub genre: Option<Seq<char>>,
    pub bpm: Option<Seq<char>>,
    pub year: Option<i32>,
    pub total_time_ms: Option<i64>,
    pub path: Option<Seq<char>>,
}

#[verifier::ext_equal]
pub struct PlaylistView {
    pub name: Seq<char>,
    pub persistent_id: Option<Seq<char>>,
    pub parent_persistent_id: Option<Seq<char>>,
    pub is_folder: bool,
    pub is_master: bool,
    pub distinguished: bool,
    pub track_ids: Seq<i64>,
}

impl View for ItunesTrack {
    type V = TrackView;

    open spec fn view(&self) -> TrackView {
        TrackView {
            track_id: self.track_id,
            name: opt_view(self.name),
            artist: opt_view(self.artist),
            album: opt_view(self.album),
            composer: opt_view(self.composer),
            genre: opt_view(self.genre),
            bpm: opt_view(self.bpm),
            year: self.year,
            total_time_ms: self.total_time_ms,
            path: opt_view(self.path),
        }
    }
}

impl View for ItunesPlaylist {
    type V = PlaylistView;

    open spec fn view(&self) -> PlaylistView {
        PlaylistView {
            name: self.name@,
            persistent_id: opt_view(self.persistent_id),
            parent_persistent_id: opt_view(self.parent_persistent_id),
            is_folder: self.is_folder,
            is_master: self.is_master,
            distinguished: self.distinguished,
            track_ids: self.track_ids@,
        }
    }
}

/// A track with no field set.
pub open spec fn empty_track() -> TrackView {
    TrackView {
        track_id: 0,
        name: None,
        artist: None,
        album: None,
        composer: None,
        genre: None,
        bpm: None,
        year: None,
        total_time_ms: None,
        path: None,
    }
}

/// A playlist with no field set.
pub open spec fn empty_playlist() -> PlaylistView {
    PlaylistView {
        name: Seq::empty(),
        persistent_id: None,
        parent_persistent_id: None,
        is_folder: false,
        is_master: false,
        distinguished: false,
        track_ids: Seq::empty(),
    }
}

/// A value that is not blank.
pub open spec fn nonempty(s: Seq<char>) -> Option<Seq<char>> {
    if trim(s).len() == 0 {
        None
    } else {
        Some(s)
    }
}

/// A decimal text read as an integer in a range.
pub open spec fn int_of(s: Seq<char>, lo: int, hi: int) -> Option<int> {
    int_in_range(s, true, lo, hi)
}

/// One key / value pair folded into a track.
pub open spec fn apply_track(t: TrackView, key: Seq<char>, v: ValueSpec) -> TrackView {
    match v {
        ValueSpec::Scalar(text) => if key == "Track ID"@ {
            TrackView {
                track_id: match int_of(text, i64::MIN as int, i64::MAX as int) {
                    Some(n) => n as i64,
                    None => 0,
                },
                ..t
            }
        } else if key == "Name"@ {
            TrackView { name: nonempty(text), ..t }
        } else if key == "Artist"@ {
            TrackView { artist: nonempty(text), ..t }
        } else if key == "Album"@ {
            TrackView { album: nonempty(text), ..t }
        } else if key == "Composer"@ {
            TrackView { composer: nonempty(text), ..t }
        } else if key == "Genre"@ {
            TrackView { genre: nonempty(text), ..t }
        } else if key == "BPM"@ {
            TrackView { bpm: Some(text), ..t }
        } else if key == "Year"@ {
            TrackView {
                year: match int_of(text, i32::MIN as int, i32::MAX as int) {
                    Some(n) => Some(n as i32),
                    None => None,
                },
                ..t
            }
        } else if key == "Total Time"@ {
            TrackView {
                total_time_ms: match int_of(text, i64::MIN as int, i64::MAX as int) {
                    Some(n) => Some(n as i64),
                    None => None,
                },
                ..t
            }
        } else if key == "Location"@ {
            TrackView { path: file_url_path(text), ..t }
        } else {
            t
        },
        _ => t,
    }
}

/// A track's artist is set by its `Artist` key alone and its composer by its
/// `Composer` key alone: any other key leaves each as it was. An `Artist`
/// string sets the artist, and a `Composer` string the composer, to the
/// value itself, or to none when the value is blank; a `Composer` string
/// changes no other field.
pub proof fn lemma_artist_and_composer_keys(t: TrackView, key: Seq<char>, v: ValueSpec, x: Seq<char>)
    ensures
        key != "Artist"@ ==> apply_track(t, key, v).artist == t.artist,
        key != "Composer"@ ==> apply_track(t, key, v).composer == t.composer,
        apply_track(t, "Artist"@, ValueSpec::Scalar(x)).artist == (if trim(x).len() == 0 {
            None
        } else {
            Some(x)
        }),
        apply_track(t, "Composer"@, ValueSpec::Scalar(x)) == (TrackView {
            composer: if trim(x).len() == 0 {
                None
            } else {
                Some(x)
            },
            ..t
        }),
{
    reveal_strlit("Track ID");
    reveal_strlit("Name");
    reveal_strlit("Artist");
    reveal_strlit("Album");
    reveal_strlit("Composer");
    assert("Artist"@ != "Track ID"@) by {
        assert("Artist"@.len() != "Track ID"@.len());
    }
    assert("Artist"@ != "Name"@) by {
        assert("Artist"@.len() != "Name"@.len());
    }
    assert("Composer"@ != "Track ID"@) by {
        assert("Composer"@[0] != "Track ID"@[0]);
    }
    assert("Composer"@ != "Name"@) by {
        assert("Composer"@.len() != "Name"@.len());
    }
    assert("Composer"@ != "Artist"@) by {
        assert("Composer"@.len() != "Artist"@.len());
    }
    assert("Composer"@ != "Album"@) by {
        assert("Composer"@.len() != "Album"@.len());
    }
}

/// After a value inside a dict: containers are consumed whole.
pub open spec fn after_value(e: Seq<EventView>, v: ValueSpec, j: int) -> Result<int, Seq<char>> {
    match v {
        ValueSpec::Dict => skip_container_spec(e, j, name_bytes("dict"@), 1),
        ValueSpec::Array => skip_container_spec(e, j, name_bytes("array"@), 1),
        _ => Ok(j),
    }
}

pub proof fn lemma_after_value_pos(e: Seq<EventView>, v: ValueSpec, j: int)
    requires
        0 <= j <= e.len(),
    ensures
        after_value(e, v, j) matches Ok(k) ==> j <= k <= e.len(),
{
    lemma_skip_container_pos(e, j, name_bytes("dict"@), 1);
    lemma_skip_container_pos(e, j, name_bytes("array"@), 1);
}

/// The key / value pairs of a track dict, up to its closing tag.
pub open spec fn track_dict_spec(e: Seq<EventView>, i: int, t: TrackView) -> Result<(TrackView, int), Seq<char>>
    decreases e.len() - i,
{
    if i < 0 || i > e.len() {
        Ok((t, i))
    } else {
        match read_key_spec(e, i) {
            Err(m) => Err(m),
            Ok((None, j)) => Ok((t, j)),
            Ok((Some(k), j)) => {
                proof {
                    lemma_read_key_pos(e, i);
                }
                match read_value_spec(e, j) {
                    Err(m) => Err(m),
                    Ok((v, j2)) => {
                        proof {
                            lemma_read_value_pos(e, j);
                        }
                        match after_value(e, v, j2) {
                            Err(m) => Err(m),
                            Ok(j3) => {
                                proof {
                                    lemma_after_value_pos(e, v, j2);
                                }
                                track_dict_spec(e, j3, apply_track(t, k, v))
                            },
                        }
                    },
                }
            },
        }
    }
}

pub proof fn lemma_track_dict_pos(e: Seq<EventView>, i: int, t: TrackView)
    requires
        0 <= i <= e.len(),
    ensures
        track_dict_spec(e, i, t) matches Ok((_, j)) ==> i <= j <= e.len(),
    decreases e.len() - i,
{
    lemma_read_key_pos(e, i);
    if let Ok((Some(k), j)) = read_key_spec(e, i) {
        lemma_read_value_pos(e, j);
        if let Ok((v, j2)) = read_value_spec(e, j) {
            lemma_after_value_pos(e, v, j2);
            if let Ok(j3) = after_value(e, v, j2) {
                lemma_track_dict_pos(e, j3, apply_track(t, k, v));
            }
        }
    }
}

/// A track is kept when it has an id or a path.
pub open spec fn keep_track(t: TrackView) -> bool {
    t.track_id != 0 || t.path.is_some()
}

/// The entries of the `Tracks` dict: each `id -> <dict>` entry's track,
/// when kept.
pub open spec fn tracks_loop_spec(e: Seq<EventView>, i: int, acc: Seq<TrackView>) -> Result<(Seq<TrackView>, int), Seq<char>>
    decreases e.len() - i,
{
    if i < 0 || i > e.len() {
        Ok((acc, i))
    } else {
        match read_key_spec(e, i) {
            Err(m) => Err(m),
            Ok((None, j)) => Ok((acc, j)),
            Ok((Some(_), j)) => {
                proof {
                    lemma_read_key_pos(e, i);
                }
                match read_value_spec(e, j) {
                    Err(m) => Err(m),
                    Ok((ValueSpec::Dict, j2)) => {
                        proof {
                            lemma_read_value_pos(e, j);
                            lemma_track_dict_pos(e, j2, empty_track());
                        }
                        match track_dict_spec(e, j2, empty_track()) {
                            Err(m) => Err(m),
                            Ok((t, j3)) => tracks_loop_spec(e, j3, if keep_track(t) { acc.push(t) } else { acc }),
                        }
                    },
                    Ok((ValueSpec::Array, j2)) => {
                        proof {
                            lemma_read_value_pos(e, j);
                            lemma_skip_container_pos(e, j2, name_bytes("array"@), 1);
                        }
                        match skip_container_spec(e, j2, name_bytes("array"@), 1) {
                            Err(m) => Err(m),
                            Ok(j3) => tracks_loop_spec(e, j3, acc),
                        }
                    },
                    Ok((_, j2)) => {
                        proof {
                            lemma_read_value_pos(e, j);
                        }
                        tracks_loop_spec(e, j2, acc)
                    },
                }
            },
        }
    }
}

/// The `Track ID`s of the item dicts of a `Playlist Items` array, up to its
/// closing tag.
pub open spec fn items_spec(e: Seq<EventView>, i: int, ids: Seq<i64>) -> Result<(Seq<i64>, int), Seq<char>>
    decreases e.len() - i, 1int,
{
    if i < 0 || i >= e.len() {
        Ok((ids, i))
    } else {
        match e[i] {
            EventView::Eof => Ok((ids, i)),
            EventView::Error(m) => Err(m),
            EventView::End(n) => if n == name_bytes("array"@) { Ok((ids, i + 1)) } else { items_spec(e, i + 1, ids) },
            EventView::Start(t) => if t.name == name_bytes("dict"@) {
                proof {
                    lemma_item_dict_pos(e, i + 1, ids);
                }
                match item_dict_spec(e, i + 1, ids) {
                    Err(m) => Err(m),
                    Ok((ids2, j)) => items_spec(e, j, ids2),
                }
            } else {
                items_spec(e, i + 1, ids)
            },
            _ => items_spec(e, i + 1, ids),
        }
    }
}

/// The pairs of one item dict: a `Track ID` integer adds a member.
pub open spec fn item_dict_spec(e: Seq<EventView>, i: int, ids: Seq<i64>) -> Result<(Seq<i64>, int), Seq<char>>
    decreases e.len() - i, 0int,
{
    if i < 0 || i > e.len() {
        Ok((ids, i))
    } else {
        match read_key_spec(e, i) {
            Err(m) => Err(m),
            Ok((None, j)) => Ok((ids, j)),
            Ok((Some(k), j)) => {
                proof {
                    lemma_read_key_pos(e, i);
                }
                match read_value_spec(e, j) {
                    Err(m) => Err(m),
                    Ok((v, j2)) => {
                        proof {
                            lemma_read_value_pos(e, j);
                        }
                        let ids2 = match v {
                            ValueSpec::Scalar(text) => if k == "Track ID"@ && int_of(text, i64::MIN as int, i64::MAX as int).is_some() {
                                ids.push(int_of(text, i64::MIN as int, i64::MAX as int).unwrap() as i64)
                            } else {
                                ids
                            },
                            _ => ids,
                        };
                        item_dict_spec(e, j2, ids2)
                    },
                }
            },
        }
    }
}

pub proof fn lemma_item_dict_pos(e: Seq<EventView>, i: int, ids: Seq<i64>)
    requires
        0 <= i <= e.len(),
    ensures
        item_dict_spec(e, i, ids) matches Ok((_, j)) ==> i <= j <= e.len(),
    decreases e.len() - i,
{
    lemma_read_key_pos(e, i);
    if let Ok((Some(k), j)) = read_key_spec(e, i) {
        lemma_read_value_pos(e, j);
        if let Ok((v, j2)) = read_value_spec(e, j) {
            let ids2 = match v {
                ValueSpec::Scalar(text) => if k == "Track ID"@ && int_of(text, i64::MIN as int, i64::MAX as int).is_some() {
                    ids.push(int_of(text, i64::MIN as int, i64::MAX as int).unwrap() as i64)
                } else {
                    ids
                },
                _ => ids,
            };
            lemma_item_dict_pos(e, j2, ids2);
        }
    }
}

pub proof fn lemma_items_pos(e: Seq<EventView>, i: int, ids: Seq<i64>)
    requires
        0 <= i <= e.len(),
    ensures
        items_spec(e, i, ids) matches Ok((_, j)) ==> i <= j <= e.len(),
    decreases e.len() - i,
{
    if i < e.len() {
        match e[i] {
            EventView::Start(t) => {
                lemma_item_dict_pos(e, i + 1, ids);
                if let Ok((ids2, j)) = item_dict_spec(e, i + 1, ids) {
                    lemma_items_pos(e, j, ids2);
                }
                lemma_items_pos(e, i + 1, ids);
            },
            _ => lemma_items_pos(e, i + 1, ids),
        }
    }
}

/// A scalar pair folded into a playlist.
pub open spec fn apply_playlist_scalar(p: PlaylistView, key: Seq<char>, text: Seq<char>) -> PlaylistView {
    if key == "Name"@ {
        PlaylistView { name: text, ..p }
    } else if key == "Playlist Persistent ID"@ {
        PlaylistView { persistent_id: nonempty(text), ..p }
    } else if key == "Parent Persistent ID"@ {
        PlaylistView { parent_persistent_id: nonempty(text), ..p }
    } else if key == "Distinguished Kind"@ {
        PlaylistView { distinguished: true, ..p }
    } else {
        p
    }
}

/// A boolean pair folded into a playlist.
pub open spec fn apply_playlist_bool(p: PlaylistView, key: Seq<char>, b: bool) -> PlaylistView {
    if key == "Folder"@ {
        PlaylistView { is_folder: b, ..p }
    } else if key == "Master"@ {
        PlaylistView { is_master: b, ..p }
    } else {
        p
    }
}

/// The key / value pairs of a playlist dict, up to its closing tag.
pub open spec fn playlist_dict_spec(e: Seq<EventView>, i: int, p: PlaylistView) -> Result<(PlaylistView, int), Seq<char>>
    decreases e.len() - i,
{
    if i < 0 || i > e.len() {
        Ok((p, i))
    } else {
        match read_key_spec(e, i) {
            Err(m) => Err(m),
            Ok((None, j)) => Ok((p, j)),
            Ok((Some(k), j)) => {
                proof {
                    lemma_read_key_pos(e, i);
                    lemma_read_value_pos(e, j);
                }
                match read_value_spec(e, j) {
                    Err(m) => Err(m),
                    Ok((v, j2)) => if k == "Playlist Items"@ {
                        match v {
                            ValueSpec::Array => {
                                proof {
                                    lemma_items_pos(e, j2, Seq::empty());
                                }
                                match items_spec(e, j2, Seq::empty()) {
                                    Err(m) => Err(m),
                                    Ok((ids, j3)) => playlist_dict_spec(e, j3, PlaylistView { track_ids: ids, ..p }),
                                }
                            },
                            _ => playlist_dict_spec(e, j2, p),
                        }
                    } else {
                        proof {
                            lemma_after_value_pos(e, v, j2);
                        }
                        match after_value(e, v, j2) {
                            Err(m) => Err(m),
                            Ok(j3) => playlist_dict_spec(e, j3, match v {
                                ValueSpec::Scalar(text) => apply_playlist_scalar(p, k, text),
                                ValueSpec::Bool(b) => apply_playlist_bool(p, k, b),
                                _ => p,
                            }),
                        }
                    },
                }
            },
        }
    }
}

pub proof fn lemma_playlist_dict_pos(e: Seq<EventView>, i: int, p: PlaylistView)
    requires
        0 <= i <= e.len(),
    ensures
        playlist_dict_spec(e, i, p) matches Ok((_, j)) ==> i <= j <= e.len(),
    decreases e.len() - i,
{
    lemma_read_key_pos(e, i);
    if let Ok((Some(k), j)) = read_key_spec(e, i) {
        lemma_read_value_pos(e, j);
        if let Ok((v, j2)) = read_value_spec(e, j) {
            if k == "Playlist Items"@ {
                if v is Array {
                    lemma_items_pos(e, j2, Seq::empty());
                    if let Ok((ids, j3)) = items_spec(e, j2, Seq::empty()) {
                        lemma_playlist_dict_pos(e, j3, PlaylistView { track_ids: ids, ..p });
                    }
                } else {
                    lemma_playlist_dict_pos(e, j2, p);
                }
            } else {
                lemma_after_value_pos(e, v, j2);
                if let Ok(j3) = after_value(e, v, j2) {
                    lemma_playlist_dict_pos(e, j3, match v {
                        ValueSpec::Scalar(text) => apply_playlist_scalar(p, k, text),
                        ValueSpec::Bool(b) => apply_playlist_bool(p, k, b),
                        _ => p,
                    });
                }
            }
        }
    }
}

/// The playlist dicts of the `Playlists` array, up to its closing tag; a
/// playlist without a name is dropped.
pub open spec fn playlists_loop_spec(e: Seq<EventView>, i: int, acc: Seq<PlaylistView>) -> Result<(Seq<PlaylistView>, int), Seq<char>>
    decreases e.len() - i,
{
    if i < 0 || i >= e.len() {
        Ok((acc, i))
    } else {
        match e[i] {
            EventView::Eof => Ok((acc, i)),
            EventView::Error(m) => Err(m),
            EventView::End(n) => if n == name_bytes("array"@) { Ok((acc, i + 1)) } else { playlists_loop_spec(e, i + 1, acc) },
            EventView::Start(t) => if t.name == name_bytes("dict"@) {
                proof {
                    lemma_playlist_dict_pos(e, i + 1, empty_playlist());
                }
                match playlist_dict_spec(e, i + 1, empty_playlist()) {
                    Err(m) => Err(m),
                    Ok((p, j)) => playlists_loop_spec(e, j, if p.name.len() > 0 { acc.push(p) } else { acc }),
                }
            } else {
                playlists_loop_spec(e, i + 1, acc)
            },
            _ => playlists_loop_spec(e, i + 1, acc),
        }
    }
}

pub proof fn lemma_tracks_loop_pos(e: Seq<EventView>, i: int, acc: Seq<TrackView>)
    requires
        0 <= i <= e.len(),
    ensures
        tracks_loop_spec(e, i, acc) matches Ok((_, j)) ==> i <= j <= e.len(),
    decreases e.len() - i,
{
    lemma_read_key_pos(e, i);
    if let Ok((Some(_), j)) = read_key_spec(e, i) {
        lemma_read_value_pos(e, j);
        match read_value_spec(e, j) {
            Ok((ValueSpec::Dict, j2)) => {
                lemma_track_dict_pos(e, j2, empty_track());
                if let Ok((t, j3)) = track_dict_spec(e, j2, empty_track()) {
                    lemma_tracks_loop_pos(e, j3, if keep_track(t) { acc.push(t) } else { acc });
                }
            },
            Ok((ValueSpec::Array, j2)) => {
                lemma_skip_container_pos(e, j2, name_bytes("array"@), 1);
                if let Ok(j3) = skip_container_spec(e, j2, name_bytes("array"@), 1) {
                    lemma_tracks_loop_pos(e, j3, acc);
                }
            },
            Ok((_, j2)) => lemma_tracks_loop_pos(e, j2, acc),
            _ => {},
        }
    }
}

pub proof fn lemma_playlists_loop_pos(e: Seq<EventView>, i: int, acc: Seq<PlaylistView>)
    requires
        0 <= i <= e.len(),
    ensures
        playlists_loop_spec(e, i, acc) matches Ok((_, j)) ==> i <= j <= e.len(),
    decreases e.len() - i,
{
    if i < e.len() {
        lemma_playlist_dict_pos(e, i + 1, empty_playlist());
        if let Ok((p, j)) = playlist_dict_spec(e, i + 1, empty_playlist()) {
            lemma_playlists_loop_pos(e, j, if p.name.len() > 0 { acc.push(p) } else { acc });
        }
        lemma_playlists_loop_pos(e, i + 1, acc);
    }
}

/// The value of a library.
#[verifier::ext_equal]
pub struct LibraryView {
    pub tracks: Seq<TrackView>,
    pub playlists: Seq<PlaylistView>,
}

/// The pairs of the top-level dict: `Tracks` and `Playlists` are read, any
/// other value is skipped.
pub open spec fn top_loop_spec(e: Seq<EventView>, i: int, lib: LibraryView) -> Result<LibraryView, Seq<char>>
    decreases e.len() - i,
{
    if i < 0 || i > e.len() {
        Ok(lib)
    } else {
        match read_key_spec(e, i) {
            Err(m) => Err(m),
            Ok((None, _)) => Ok(lib),
            Ok((Some(k), j)) => {
                proof {
                    lemma_read_key_pos(e, i);
                    lemma_read_value_pos(e, j);
                }
                if k == "Tracks"@ {
                    match read_value_spec(e, j) {
                        Err(m) => Err(m),
                        Ok((ValueSpec::Dict, j2)) => {
                            proof {
                                lemma_tracks_loop_pos(e, j2, lib.tracks);
                            }
                            match tracks_loop_spec(e, j2, lib.tracks) {
                                Err(m) => Err(m),
                                Ok((ts, j3)) => top_loop_spec(e, j3, LibraryView { tracks: ts, playlists: lib.playlists }),
                            }
                        },
                        Ok((_, j2)) => top_loop_spec(e, j2, lib),
                    }
                } else if k == "Playlists"@ {
                    match read_value_spec(e, j) {
                        Err(m) => Err(m),
                        Ok((ValueSpec::Array, j2)) => {
                            proof {
                                lemma_playlists_loop_pos(e, j2, lib.playlists);
                            }
                            match playlists_loop_spec(e, j2, lib.playlists) {
                                Err(m) => Err(m),
                                Ok((ps, j3)) => top_loop_spec(e, j3, LibraryView { tracks: lib.tracks, playlists: ps }),
                            }
                        },
                        Ok((_, j2)) => top_loop_spec(e, j2, lib),
                    }
                } else {
                    proof {
                        lemma_skip_value_pos(e, j);
                    }
                    match skip_value_spec(e, j) {
                        Err(m) => Err(m),
                        Ok(j2) => top_loop_spec(e, j2, lib),
                    }
                }
            },
        }
    }
}

/// The position just inside the top-level `<dict>`, `None` when the stream
/// ends first.
pub open spec fn find_dict_spec(e: Seq<EventView>, i: int) -> Result<Option<int>, Seq<char>>
    decreases e.len() - i,
{
    if i < 0 || i >= e.len() {
        Ok(None)
    } else {
        match e[i] {
            EventView::Eof => Ok(None),
            EventView::Error(m) => Err(m),
            EventView::Start(t) => if t.name == name_bytes("dict"@) { Ok(Some(i + 1)) } else { find_dict_spec(e, i + 1) },
            _ => find_dict_spec(e, i + 1),
        }
    }
}

/// What an iTunes library event stream reads as.
pub open spec fn library_spec(e: Seq<EventView>) -> Result<LibraryView, Seq<char>> {
    let empty = LibraryView { tracks: Seq::empty(), playlists: Seq::empty() };
    match find_dict_spec(e, 0) {
        Err(m) => Err(m),
        Ok(None) => Ok(empty),
        Ok(Some(i)) => top_loop_spec(e, i, empty),
    }
}

/// A value after a key, as read.
#[derive(Debug, Clone)]
pub enum PlistValue {
    /// A scalar element's text (`<string>`, `<integer>`, `<date>`, ...).
    Scalar(String),
    /// The start of a `<dict>`.
    Dict,
    /// The start of an `<array>`.
    Array,
    /// `<true/>` or `<false/>`.
    Bool(bool),
    /// The end of the stream.
    Nothing,
}

impl View for PlistValue {
    type V = ValueSpec;

    open spec fn view(&self) -> ValueSpec {
        match self {
            PlistValue::Scalar(s) => ValueSpec::Scalar(s@),
            PlistValue::Dict => ValueSpec::Dict,
            PlistValue::Array => ValueSpec::Array,
            PlistValue::Bool(b) => ValueSpec::Bool(*b),
            PlistValue::Nothing => ValueSpec::Nothing,
        }
    }
}

/// A result of the exec readers agrees with the spec result.
pub open spec fn agrees<T, V>(r: Result<(T, usize), ParseError>, s: Result<(V, int), Seq<char>>, f: spec_fn(T) -> V) -> bool {
    match s {
        Ok((v, j)) => r matches Ok((t, k)) && f(t) == v && k as int == j,
        Err(m) => r matches Err(err) && err.0@ == m,
    }
}

fn read_text(e: &[XmlEvent], i: usize, end: &[u8]) -> (r: Result<(String, usize), ParseError>)
    requires
        i <= e@.len(),
    ensures
        agrees(r, read_text_spec(events_view(e@), i as int, end@, Seq::empty()), |s: String| s@),
{
    let ghost ev = events_view(e@);
    let mut acc = String::new();
    let mut k: usize = i;
    while k < e.len()
        invariant
            i <= k <= e@.len(),
            ev == events_view(e@),
            read_text_spec(ev, i as int, end@, Seq::empty()) == read_text_spec(ev, k as int, end@, acc@),
        decreases e.len() - k,
    {
        proof {
            assert(ev[k as int] == e@[k as int]@);
        }
        match &e[k] {
            XmlEvent::Eof => {
                return Ok((acc, k));
            },
            XmlEvent::Error(m) => {
                return Err(ParseError(m.clone()));
            },
            XmlEvent::BadText(m) => {
                return Err(ParseError(m.clone()));
            },
            XmlEvent::Text(t) => {
                acc.append(t.as_str());
            },
            XmlEvent::End(n) => {
                if bytes_eq(n.as_slice(), end) {
                    return Ok((acc, k + 1));
                }
            },
            _ => {},
        }
        k = k + 1;
    }
    Ok((acc, k))
}

fn read_key(e: &[XmlEvent], i: usize) -> (r: Result<(Option<String>, usize), ParseError>)
    requires
        i <= e@.len(),
    ensures
        agrees(r, read_key_spec(events_view(e@), i as int), |o: Option<String>| opt_view(o)),
{
    let ghost ev = events_view(e@);
    let mut k: usize = i;
    while k < e.len()
        invariant
            i <= k <= e@.len(),
            ev == events_view(e@),
            read_key_spec(ev, i as int) == read_key_spec(ev, k as int),
        decreases e.len() - k,
    {
        proof {
            assert(ev[k as int] == e@[k as int]@);
        }
        match &e[k] {
            XmlEvent::Eof => {
                return Ok((None, k));
            },
            XmlEvent::Error(m) => {
                return Err(ParseError(m.clone()));
            },
            XmlEvent::End(n) => {
                if name_is(n.as_slice(), "dict") {
                    return Ok((None, k + 1));
                }
            },
            XmlEvent::Start(t) => {
                if name_is(t.name.as_slice(), "key") {
                    return match read_text(e, k + 1, "key".as_bytes()) {
                        Ok((s, j)) => Ok((Some(s), j)),
                        Err(err) => Err(err),
                    };
                }
            },
            _ => {},
        }
        k = k + 1;
    }
    Ok((None, k))
}

fn read_value(e: &[XmlEvent], i: usize) -> (r: Result<(PlistValue, usize), ParseError>)
    requires
        i <= e@.len(),
    ensures
        agrees(r, read_value_spec(events_view(e@), i as int), |v: PlistValue| v@),
{
    let ghost ev = events_view(e@);
    let mut k: usize = i;
    while k < e.len()
        invariant
            i <= k <= e@.len(),
            ev == events_view(e@),
            read_value_spec(ev, i as int) == read_value_spec(ev, k as int),
        decreases e.len() - k,
    {
        proof {
            assert(ev[k as int] == e@[k as int]@);
        }
        match &e[k] {
            XmlEvent::Eof => {
                return Ok((PlistValue::Nothing, k));
            },
            XmlEvent::Error(m) => {
                return Err(ParseError(m.clone()));
            },
            XmlEvent::Empty(t) => {
                let v = if name_is(t.name.as_slice(), "true") {
                    PlistValue::Bool(true)
                } else if name_is(t.name.as_slice(), "false") {
                    PlistValue::Bool(false)
                } else {
                    PlistValue::Scalar(String::new())
                };
                return Ok((v, k + 1));
            },
            XmlEvent::Start(t) => {
                if name_is(t.name.as_slice(), "dict") {
                    return Ok((PlistValue::Dict, k + 1));
                } else if name_is(t.name.as_slice(), "array") {
                    return Ok((PlistValue::Array, k + 1));
                } else {
                    return match read_text(e, k + 1, t.name.as_slice()) {
                        Ok((s, j)) => Ok((PlistValue::Scalar(s), j)),
                        Err(err) => Err(err),
                    };
                }
            },
            _ => {},
        }
        k = k + 1;
    }
    Ok((PlistValue::Nothing, k))
}

fn skip_container(e: &[XmlEvent], i: usize, tag: &[u8]) -> (r: Result<usize, ParseError>)
    requires
        i <= e@.len(),
    ensures
        match skip_container_spec(events_view(e@), i as int, tag@, 1) {
            Ok(j) => r matches Ok(k) && k as int == j,
            Err(m) => r matches Err(err) && err.0@ == m,
        },
{
    let ghost ev = events_view(e@);
    let mut depth: u128 = 1;
    let mut k: usize = i;
    while k < e.len()
        invariant
            i <= k <= e@.len(),
            ev == events_view(e@),
            1 <= depth <= k - i + 1,
            skip_container_spec(ev, i as int, tag@, 1) == skip_container_spec(ev, k as int, tag@, depth as nat),
        decreases e.len() - k,
    {
        proof {
            assert(ev[k as int] == e@[k as int]@);
        }
        match &e[k] {
            XmlEvent::Eof => {
                return Ok(k);
            },
            XmlEvent::Error(m) => {
                return Err(ParseError(m.clone()));
            },
            XmlEvent::Start(t) => {
                if bytes_eq(t.name.as_slice(), tag) {
                    depth = depth + 1;
                }
            },
            XmlEvent::End(n) => {
                if bytes_eq(n.as_slice(), tag) {
                    if depth <= 1 {
                        return Ok(k + 1);
                    }
                    depth = depth - 1;
                }
            },
            _ => {},
        }
        k = k + 1;
    }
    Ok(k)
}

fn skip_value(e: &[XmlEvent], i: usize) -> (r: Result<usize, ParseError>)
    requires
        i <= e@.len(),
    ensures
        match skip_value_spec(events_view(e@), i as int) {
            Ok(j) => r matches Ok(k) && k as int == j,
            Err(m) => r matches Err(err) && err.0@ == m,
        },
{
    proof {
        lemma_read_value_pos(events_view(e@), i as int);
    }
    match read_value(e, i) {
        Err(err) => Err(err),
        Ok((PlistValue::Dict, j)) => skip_container(e, j, "dict".as_bytes()),
        Ok((PlistValue::Array, j)) => skip_container(e, j, "array".as_bytes()),
        Ok((_, j)) => Ok(j),
    }
}

/// A value that is not blank, as text.
fn nonempty_text(s: String) -> (r: Option<String>)
    ensures
        opt_view(r) == nonempty(s@),
{
    let v = chars_of(s.as_str());
    let (a, b) = trim_bounds(&v, 0, v.len());
    proof {
        assert(v@.subrange(0, v@.len() as int) =~= s@);
    }
    if a == b {
        None
    } else {
        Some(s)
    }
}

/// Fold one key / value pair into a track.
fn apply_track_exec(t: &mut ItunesTrack, key: &str, v: PlistValue)
    ensures
        final(t)@ == apply_track(old(t)@, key@, v@),
{
    match v {
        PlistValue::Scalar(text) => {
            if str_eq(key, "Track ID") {
                t.track_id = match parse_i64(text.as_str()) {
                    Some(n) => n,
                    None => 0,
                };
            } else if str_eq(key, "Name") {
                t.name = nonempty_text(text);
            } else if str_eq(key, "Artist") {
                t.artist = nonempty_text(text);
            } else if str_eq(key, "Album") {
                t.album = nonempty_text(text);
            } else if str_eq(key, "Composer") {
                t.composer = nonempty_text(text);
            } else if str_eq(key, "Genre") {
                t.genre = nonempty_text(text);
            } else if str_eq(key, "BPM") {
                t.bpm = Some(text);
            } else if str_eq(key, "Year") {
                t.year = parse_i32(text.as_str());
            } else if str_eq(key, "Total Time") {
                t.total_time_ms = parse_i64(text.as_str());
            } else if str_eq(key, "Location") {
                t.path = decode_file_url(text.as_str());
            }
        },
        _ => {},
    }
}

fn after_value_exec(e: &[XmlEvent], v: &PlistValue, j: usize) -> (r: Result<usize, ParseError>)
    requires
        j <= e@.len(),
    ensures
        match after_value(events_view(e@), v@, j as int) {
            Ok(k) => r matches Ok(x) && x as int == k,
            Err(m) => r matches Err(err) && err.0@ == m,
        },
{
    match v {
        PlistValue::Dict => skip_container(e, j, "dict".as_bytes()),
        PlistValue::Array => skip_container(e, j, "array".as_bytes()),
        _ => Ok(j),
    }
}

fn empty_track_exec() -> (t: ItunesTrack)
    ensures
        t@ == empty_track(),
{
    ItunesTrack {
        track_id: 0,
        name: None,
        artist: None,
        album: None,
        composer: None,
        genre: None,
        bpm: None,
        year: None,
        total_time_ms: None,
        path: None,
    }
}

/// The pairs of one track dict.
fn parse_track_dict(e: &[XmlEvent], i: usize) -> (r: Result<(ItunesTrack, usize), ParseError>)
    requires
        i <= e@.len(),
    ensures
        agrees(r, track_dict_spec(events_view(e@), i as int, empty_track()), |t: ItunesTrack| t@),
{
    let ghost ev = events_view(e@);
    let mut t = empty_track_exec();
    let mut k: usize = i;
    loop
        invariant
            i <= k <= e@.len(),
            ev == events_view(e@),
            track_dict_spec(ev, i as int, empty_track()) == track_dict_spec(ev, k as int, t@),
        decreases e.len() - k,
    {
        proof {
            lemma_read_key_pos(ev, k as int);
        }
        let (key, j) = match read_key(e, k) {
            Err(err) => return Err(err),
            Ok((None, j)) => return Ok((t, j)),
            Ok((Some(key), j)) => (key, j),
        };
        proof {
            lemma_read_value_pos(ev, j as int);
        }
        let (v, j2) = match read_value(e, j) {
            Err(err) => return Err(err),
            Ok(x) => x,
        };
        proof {
            lemma_after_value_pos(ev, v@, j2 as int);
        }
        let j3 = match after_value_exec(e, &v, j2) {
            Err(err) => return Err(err),
            Ok(x) => x,
        };
        apply_track_exec(&mut t, key.as_str(), v);
        k = j3;
    }
}

/// The values of a list of tracks.
pub open spec fn tracks_view(v: Seq<ItunesTrack>) -> Seq<TrackView> {
    v.map_values(|t: ItunesTrack| t@)
}

/// The values of a list of playlists.
pub open spec fn playlists_view(v: Seq<ItunesPlaylist>) -> Seq<PlaylistView> {
    v.map_values(|p: ItunesPlaylist| p@)
}

/// The entries of a `Tracks` dict, appended to `out`.
fn tracks_loop(e: &[XmlEvent], i: usize, out: &mut Vec<ItunesTrack>) -> (r: Result<usize, ParseError>)
    requires
        i <= e@.len(),
    ensures
        match tracks_loop_spec(events_view(e@), i as int, tracks_view(old(out)@)) {
            Ok((ts, j)) => r matches Ok(k) && k as int == j && tracks_view(final(out)@) == ts,
            Err(m) => r matches Err(err) && err.0@ == m,
        },
{
    let ghost ev = events_view(e@);
    let ghost start = tracks_view(out@);
    let mut k: usize = i;
    loop
        invariant
            i <= k <= e@.len(),
            ev == events_view(e@),
            start == tracks_view(old(out)@),
            tracks_loop_spec(ev, i as int, start) == tracks_loop_spec(ev, k as int, tracks_view(out@)),
        decreases e.len() - k,
    {
        proof {
            lemma_read_key_pos(ev, k as int);
        }
        let j = match read_key(e, k) {
            Err(err) => return Err(err),
            Ok((None, j)) => return Ok(j),
            Ok((Some(_), j)) => j,
        };
        proof {
            lemma_read_value_pos(ev, j as int);
        }
        match read_value(e, j) {
            Err(err) => return Err(err),
            Ok((PlistValue::Dict, j2)) => {
                proof {
                    lemma_track_dict_pos(ev, j2 as int, empty_track());
                }
                match parse_track_dict(e, j2) {
                    Err(err) => return Err(err),
                    Ok((t, j3)) => {
                        if t.track_id != 0 || t.path.is_some() {
                            let ghost before = tracks_view(out@);
                            let ghost tv = t@;
                            out.push(t);
                            proof {
                                assert(tracks_view(out@) =~= before.push(tv));
                            }
                        }
                        k = j3;
                    },
                }
            },
            Ok((PlistValue::Array, j2)) => {
                proof {
                    lemma_skip_container_pos(ev, j2 as int, name_bytes("array"@), 1);
                }
                match skip_container(e, j2, "array".as_bytes()) {
                    Err(err) => return Err(err),
                    Ok(j3) => {
                        k = j3;
                    },
                }
            },
            Ok((_, j2)) => {
                k = j2;
            },
        }
    }
}

/// The `Track ID`s of one item dict, appended to `ids`.
fn item_dict(e: &[XmlEvent], i: usize, ids: &mut Vec<i64>) -> (r: Result<usize, ParseError>)
    requires
        i <= e@.len(),
    ensures
        match item_dict_spec(events_view(e@), i as int, old(ids)@) {
            Ok((v, j)) => r matches Ok(k) && k as int == j && final(ids)@ == v,
            Err(m) => r matches Err(err) && err.0@ == m,
        },
{
    let ghost ev = events_view(e@);
    let ghost start = ids@;
    let mut k: usize = i;
    loop
        invariant
            i <= k <= e@.len(),
            ev == events_view(e@),
            start == old(ids)@,
            item_dict_spec(ev, i as int, start) == item_dict_spec(ev, k as int, ids@),
        decreases e.len() - k,
    {
        proof {
            lemma_read_key_pos(ev, k as int);
        }
        let (key, j) = match read_key(e, k) {
            Err(err) => return Err(err),
            Ok((None, j)) => return Ok(j),
            Ok((Some(key), j)) => (key, j),
        };
        proof {
            lemma_read_value_pos(ev, j as int);
        }
        let (v, j2) = match read_value(e, j) {
            Err(err) => return Err(err),
            Ok(x) => x,
        };
        match v {
            PlistValue::Scalar(text) => {
                if str_eq(key.as_str(), "Track ID") {
                    match parse_i64(text.as_str()) {
                        Some(id) => {
                            ids.push(id);
                        },
                        None => {},
                    }
                }
            },
            _ => {},
        }
        k = j2;
    }
}

/// The `Track ID`s of a `Playlist Items` array.
fn read_playlist_items(e: &[XmlEvent], i: usize) -> (r: Result<(Vec<i64>, usize), ParseError>)
    requires
        i <= e@.len(),
    ensures
        agrees(r, items_spec(events_view(e@), i as int, Seq::empty()), |v: Vec<i64>| v@),
{
    let ghost ev = events_view(e@);
    let mut ids: Vec<i64> = Vec::new();
    let mut k: usize = i;
    while k < e.len()
        invariant
            i <= k <= e@.len(),
            ev == events_view(e@),
            items_spec(ev, i as int, Seq::empty()) == items_spec(ev, k as int, ids@),
        decreases e.len() - k,
    {
        proof {
            assert(ev[k as int] == e@[k as int]@);
        }
        match &e[k] {
            XmlEvent::Eof => {
                return Ok((ids, k));
            },
            XmlEvent::Error(m) => {
                return Err(ParseError(m.clone()));
            },
            XmlEvent::End(n) => {
                if name_is(n.as_slice(), "array") {
                    return Ok((ids, k + 1));
                }
                k = k + 1;
            },
            XmlEvent::Start(t) => {
                if name_is(t.name.as_slice(), "dict") {
                    proof {
                        lemma_item_dict_pos(ev, k + 1, ids@);
                    }
                    match item_dict(e, k + 1, &mut ids) {
                        Err(err) => return Err(err),
                        Ok(j) => {
                            k = j;
                        },
                    }
                } else {
                    k = k + 1;
                }
            },
            _ => {
                k = k + 1;
            },
        }
    }
    Ok((ids, k))
}

fn empty_playlist_exec() -> (p: ItunesPlaylist)
    ensures
        p@ == empty_playlist(),
{
    ItunesPlaylist {
        name: String::new(),
        persistent_id: None,
        parent_persistent_id: None,
        is_folder: false,
        is_master: false,
        distinguished: false,
        track_ids: Vec::new(),
    }
}

fn apply_playlist_exec(p: &mut ItunesPlaylist, key: &str, v: PlistValue)
    ensures
        final(p)@ == (match v@ {
            ValueSpec::Scalar(text) => apply_playlist_scalar(old(p)@, key@, text),
            ValueSpec::Bool(b) => apply_playlist_bool(old(p)@, key@, b),
            _ => old(p)@,
        }),
{
    match v {
        PlistValue::Scalar(text) => {
            if str_eq(key, "Name") {
                p.name = text;
            } else if str_eq(key, "Playlist Persistent ID") {
                p.persistent_id = nonempty_text(text);
            } else if str_eq(key, "Parent Persistent ID") {
                p.parent_persistent_id = nonempty_text(text);
            } else if str_eq(key, "Distinguished Kind") {
                p.distinguished = true;
            }
        },
        PlistValue::Bool(b) => {
            if str_eq(key, "Folder") {
                p.is_folder = b;
            } else if str_eq(key, "Master") {
                p.is_master = b;
            }
        },
        _ => {},
    }
}

/// The pairs of one playlist dict.
fn parse_playlist_dict(e: &[XmlEvent], i: usize) -> (r: Result<(ItunesPlaylist, usize), ParseError>)
    requires
        i <= e@.len(),
    ensures
        agrees(r, playlist_dict_spec(events_view(e@), i as int, empty_playlist()), |p: ItunesPlaylist| p@),
{
    let ghost ev = events_view(e@);
    let mut pl = empty_playlist_exec();
    let mut k: usize = i;
    loop
        invariant
            i <= k <= e@.len(),
            ev == events_view(e@),
            playlist_dict_spec(ev, i as int, empty_playlist()) == playlist_dict_spec(ev, k as int, pl@),
        decreases e.len() - k,
    {
        proof {
            lemma_read_key_pos(ev, k as int);
        }
        let (key, j) = match read_key(e, k) {
            Err(err) => return Err(err),
            Ok((None, j)) => return Ok((pl, j)),
            Ok((Some(key), j)) => (key, j),
        };
        proof {
            lemma_read_value_pos(ev, j as int);
        }
        let (v, j2) = match read_value(e, j) {
            Err(err) => return Err(err),
            Ok(x) => x,
        };
        if str_eq(key.as_str(), "Playlist Items") {
            match v {
                PlistValue::Array => {
                    proof {
                        lemma_items_pos(ev, j2 as int, Seq::empty());
                    }
                    match read_playlist_items(e, j2) {
                        Err(err) => return Err(err),
                        Ok((ids, j3)) => {
                            pl.track_ids = ids;
                            k = j3;
                        },
                    }
                },
                _ => {
                    k = j2;
                },
            }
        } else {
            proof {
                lemma_after_value_pos(ev, v@, j2 as int);
            }
            let j3 = match after_value_exec(e, &v, j2) {
                Err(err) => return Err(err),
                Ok(x) => x,
            };
            apply_playlist_exec(&mut pl, key.as_str(), v);
            k = j3;
        }
    }
}

/// The playlists of a `Playlists` array, appended to `out`.
fn playlists_loop(e: &[XmlEvent], i: usize, out: &mut Vec<ItunesPlaylist>) -> (r: Result<usize, ParseError>)
    requires
        i <= e@.len(),
    ensures
        match playlists_loop_spec(events_view(e@), i as int, playlists_view(old(out)@)) {
            Ok((ps, j)) => r matches Ok(k) && k as int == j && playlists_view(final(out)@) == ps,
            Err(m) => r matches Err(err) && err.0@ == m,
        },
{
    let ghost ev = events_view(e@);
    let ghost start = playlists_view(out@);
    let mut k: usize = i;
    while k < e.len()
        invariant
            i <= k <= e@.len(),
            ev == events_view(e@),
            start == playlists_view(old(out)@),
            playlists_loop_spec(ev, i as int, start) == playlists_loop_spec(ev, k as int, playlists_view(out@)),
        decreases e.len() - k,
    {
        proof {
            assert(ev[k as int] == e@[k as int]@);
        }
        match &e[k] {
            XmlEvent::Eof => {
                return Ok(k);
            },
            XmlEvent::Error(m) => {
                return Err(ParseError(m.clone()));
            },
            XmlEvent::End(n) => {
                if name_is(n.as_slice(), "array") {
                    return Ok(k + 1);
                }
                k = k + 1;
            },
            XmlEvent::Start(t) => {
                if name_is(t.name.as_slice(), "dict") {
                    proof {
                        lemma_playlist_dict_pos(ev, k + 1, empty_playlist());
                    }
                    match parse_playlist_dict(e, k + 1) {
                        Err(err) => return Err(err),
                        Ok((pl, j)) => {
                            if !pl.name.as_str().is_empty() {
                                let ghost before = playlists_view(out@);
                                let ghost pv = pl@;
                                out.push(pl);
                                proof {
                                    assert(playlists_view(out@) =~= before.push(pv));
                                }
                            }
                            k = j;
                        },
                    }
                } else {
                    k = k + 1;
                }
            },
            _ => {
                k = k + 1;
            },
        }
    }
    Ok(k)
}

impl View for ItunesLibrary {
    type V = LibraryView;

    open spec fn view(&self) -> LibraryView {
        LibraryView { tracks: tracks_view(self.tracks@), playlists: playlists_view(self.playlists@) }
    }
}

fn find_dict(e: &[XmlEvent]) -> (r: Result<Option<usize>, ParseError>)
    ensures
        match find_dict_spec(events_view(e@), 0) {
            Ok(o) => r matches Ok(x) && (match (x, o) {
                (Some(a), Some(b)) => a as int == b,
                (None, None) => true,
                _ => false,
            }),
            Err(m) => r matches Err(err) && err.0@ == m,
        },
        r matches Ok(Some(a)) ==> a <= e@.len(),
{
    let ghost ev = events_view(e@);
    let mut k: usize = 0;
    while k < e.len()
        invariant
            0 <= k <= e@.len(),
            ev == events_view(e@),
            find_dict_spec(ev, 0) == find_dict_spec(ev, k as int),
        decreases e.len() - k,
    {
        proof {
            assert(ev[k as int] == e@[k as int]@);
        }
        match &e[k] {
            XmlEvent::Eof => {
                return Ok(None);
            },
            XmlEvent::Error(m) => {
                return Err(ParseError(m.clone()));
            },
            XmlEvent::Start(t) => {
                if name_is(t.name.as_slice(), "dict") {
                    return Ok(Some(k + 1));
                }
            },
            _ => {},
        }
        k = k + 1;
    }
    Ok(None)
}

/// Read an iTunes `Library.xml` event stream: its tracks and playlists, or
/// the first hard error.
pub fn parse_events(e: &[XmlEvent]) -> (r: Result<ItunesLibrary, ParseError>)
    ensures
        match library_spec(events_view(e@)) {
            Ok(lib) => r matches Ok(l) && l@ == lib,
            Err(m) => r matches Err(err) && err.0@ == m,
        },
{
    let ghost ev = events_view(e@);
    let mut lib = ItunesLibrary { tracks: Vec::new(), playlists: Vec::new() };
    proof {
        assert(lib@.tracks =~= Seq::<TrackView>::empty());
        assert(lib@.playlists =~= Seq::<PlaylistView>::empty());
        assert(lib@ =~= LibraryView { tracks: Seq::empty(), playlists: Seq::empty() });
    }
    let start = match find_dict(e) {
        Err(err) => return Err(err),
        Ok(None) => return Ok(lib),
        Ok(Some(s)) => s,
    };
    let mut k: usize = start;
    loop
        invariant
            start <= k <= e@.len(),
            ev == events_view(e@),
            find_dict_spec(ev, 0) == Ok::<Option<int>, Seq<char>>(Some(start as int)),
            library_spec(ev) == top_loop_spec(ev, k as int, lib@),
        decreases e.len() - k,
    {
        proof {
            lemma_read_key_pos(ev, k as int);
        }
        let (key, j) = match read_key(e, k) {
            Err(err) => return Err(err),
            Ok((None, _)) => return Ok(lib),
            Ok((Some(key), j)) => (key, j),
        };
        proof {
            lemma_read_value_pos(ev, j as int);
        }
        if str_eq(key.as_str(), "Tracks") {
            match read_value(e, j) {
                Err(err) => return Err(err),
                Ok((PlistValue::Dict, j2)) => {
                    proof {
                        lemma_tracks_loop_pos(ev, j2 as int, lib@.tracks);
                    }
                    let ghost before = lib@;
                    match tracks_loop(e, j2, &mut lib.tracks) {
                        Err(err) => return Err(err),
                        Ok(j3) => {
                            k = j3;
                        },
                    }
                    proof {
                        assert(lib@.playlists == before.playlists);
                    }
                },
                Ok((_, j2)) => {
                    k = j2;
                },
            }
        } else if str_eq(key.as_str(), "Playlists") {
            match read_value(e, j) {
                Err(err) => return Err(err),
                Ok((PlistValue::Array, j2)) => {
                    proof {
                        lemma_playlists_loop_pos(ev, j2 as int, lib@.playlists);
                    }
                    let ghost before = lib@;
                    match playlists_loop(e, j2, &mut lib.playlists) {
                        Err(err) => return Err(err),
                        Ok(j3) => {
                            k = j3;
                        },
                    }
                    proof {
                        assert(lib@.tracks == before.tracks);
                    }
                },
                Ok((_, j2)) => {
                    k = j2;
                },
            }
        } else {
            proof {
                lemma_skip_value_pos(ev, j as int);
            }
            match skip_value(e, j) {
                Err(err) => return Err(err),
                Ok(j2) => {
                    k = j2;
                },
            }
        }
    }
}

/// A playlist mirrored into the library: not the master library, not a
/// distinguished built-in, and named.
pub fn importable(p: &ItunesPlaylist) -> (b: bool)
    ensures
        b == (!p.is_master && !p.distinguished && p.name@.len() > 0),
{
    !p.is_master && !p.distinguished && !p.name.as_str().is_empty()
}

/// Read an iTunes `Library.xml` byte buffer: its tracks and playlists, or
/// the first hard XML error.
pub fn parse_bytes(data: &[u8]) -> (r: Result<ItunesLibrary, ParseError>)
    ensures
        match library_spec(xml_tokens(data@)) {
            Ok(d) => r matches Ok(doc) && doc@ == d,
            Err(m) => r matches Err(e) && e.0@ == m,
        },
{
    let events = tokenize(data);
    parse_events(events.as_slice())
}

} // verus!
