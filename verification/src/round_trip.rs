//! What the rekordbox writer writes, the rekordbox reader reads back.
//!
//! Reading the element stream of a written document gives back exactly the
//! playlist tree, and one raw collection track per written track: its
//! `<TRACK>` element as written and its grid and marker elements in order.
//! This holds of every tree whose nodes are listed in the order the writer
//! visits them (each node right before its subtree) and whose folders hold
//! no tracks and are not called `ROOT`.
//!
//! Field by field, the attributes the reader looks at read back as written:
//! a track's identity, text and number fields, its grid, and its cues and
//! loops.

use vstd::prelude::*;
use vstd::utf8::{is_ascii_chars, is_ascii_chars_encode_utf8};
use crate::xml::{TagView, AttrView, EventView, name_bytes, attr_spec};
use crate::rekordbox::{rating_spec, colour_spec, bar_phase_spec, MarkKind, mark_kind_spec, hotcue_spec, mark_color_spec, color_text, ReadState, DocView, RawTrackView, PlaylistView, NodeFrame, step, run, read_spec, initial_state, open_node_spec, add_member_spec, with_child, is_track_child, enclosing_row, tag_attr, as_i64, as_i32, present, location_path};
use crate::rekordbox_export::{rating_value, colour_text, hash_rgb, rgb_attrs, num_attr, name_or_empty, track_text_attrs, track_number_attrs, text_attr, some_attr, int_attr, rating_attr, colour_attr, location_attr};
use crate::file_url::{lemma_file_url_round_trip, hex_upper};
use crate::color_label::{hex_rgb, hex_body, hex_pair, hex_digit, rgb_token, token_rgb, lemma_palette_round_trip};
use crate::text::{is_ws, trim_start, trim_end};
use crate::filename_parser::opt_view;
use crate::rekordbox_export::{ExportTrack, ExportCue, ExportLoop, attr_v, tag_v, track_attrs, track_events, tempo_events, tempo_tags, cue_tag, loop_tag, tracks_events, collection_events, playlists_events, document_events, node_events, children_events, roots_events, count_children, member_events};
use crate::num::{int_display, lemma_display_parses};

verus! {

/// The state after a run of events with no end and no error.
pub open spec fn fold(s: ReadState, evs: Seq<EventView>) -> ReadState
    decreases evs.len(),
{
    if evs.len() == 0 {
        s
    } else {
        fold(step(s, evs[0]), evs.drop_first())
    }
}

/// A run of events holding neither the end nor an error.
pub open spec fn no_stop(evs: Seq<EventView>) -> bool {
    forall|i: int| 0 <= i < evs.len() ==> !(#[trigger] evs[i] is Eof) && !(evs[i] is Error)
}

proof fn lemma_fold_concat(s: ReadState, a: Seq<EventView>, b: Seq<EventView>)
    ensures
        fold(s, a + b) == fold(fold(s, a), b),
    decreases a.len(),
{
    if a.len() > 0 {
        assert((a + b).drop_first() =~= a.drop_first() + b);
        assert((a + b)[0] == a[0]);
        lemma_fold_concat(step(s, a[0]), a.drop_first(), b);
    } else {
        assert(a + b =~= b);
    }
}

proof fn lemma_run_concat(s: ReadState, a: Seq<EventView>, b: Seq<EventView>)
    requires
        no_stop(a),
    ensures
        run(s, a + b) == run(fold(s, a), b),
    decreases a.len(),
{
    if a.len() > 0 {
        assert((a + b).drop_first() =~= a.drop_first() + b);
        assert((a + b)[0] == a[0]);
        assert(!(a[0] is Eof) && !(a[0] is Error));
        assert forall|i: int| 0 <= i < a.drop_first().len() implies !(#[trigger] a.drop_first()[i] is Eof) && !(
        a.drop_first()[i] is Error) by {
            assert(a.drop_first()[i] == a[i + 1]);
        }
        lemma_run_concat(step(s, a[0]), a.drop_first(), b);
    } else {
        assert(a + b =~= b);
    }
}

proof fn lemma_ascii(s: Seq<char>)
    requires
        is_ascii_chars(s),
    ensures
        name_bytes(s).len() == s.len(),
        forall|i: int| 0 <= i < s.len() ==> name_bytes(s)[i] == s[i] as u8,
{
    is_ascii_chars_encode_utf8(s);
}

/// The element and attribute names the reader and writer share are pairwise
/// distinct where it matters.
proof fn lemma_names()
    ensures
        name_bytes("DJ_PLAYLISTS"@).len() == 12,
        name_bytes("PRODUCT"@).len() == 7,
        name_bytes("COLLECTION"@).len() == 10,
        name_bytes("TRACK"@).len() == 5,
        name_bytes("TEMPO"@).len() == 5,
        name_bytes("POSITION_MARK"@).len() == 13,
        name_bytes("PLAYLISTS"@).len() == 9,
        name_bytes("NODE"@).len() == 4,
        name_bytes("TRACK"@) != name_bytes("TEMPO"@),
        name_bytes("Type"@) != name_bytes("Name"@),
        name_bytes("KeyType"@) != name_bytes("Name"@),
        name_bytes("KeyType"@) != name_bytes("Type"@),
{
    reveal_strlit("DJ_PLAYLISTS");
    reveal_strlit("PRODUCT");
    reveal_strlit("COLLECTION");
    reveal_strlit("TRACK");
    reveal_strlit("TEMPO");
    reveal_strlit("POSITION_MARK");
    reveal_strlit("PLAYLISTS");
    reveal_strlit("NODE");
    reveal_strlit("Type");
    reveal_strlit("Name");
    reveal_strlit("KeyType");
    lemma_ascii("DJ_PLAYLISTS"@);
    lemma_ascii("PRODUCT"@);
    lemma_ascii("COLLECTION"@);
    lemma_ascii("TRACK"@);
    lemma_ascii("TEMPO"@);
    lemma_ascii("POSITION_MARK"@);
    lemma_ascii("PLAYLISTS"@);
    lemma_ascii("NODE"@);
    lemma_ascii("Type"@);
    lemma_ascii("Name"@);
    lemma_ascii("KeyType"@);
    assert(name_bytes("TRACK"@)[1] != name_bytes("TEMPO"@)[1]);
    assert(name_bytes("Type"@)[0] != name_bytes("Name"@)[0]);
}

/// Self-closing events of a list of tags.
pub open spec fn empties(tags: Seq<TagView>) -> Seq<EventView> {
    tags.map_values(|t: TagView| EventView::Empty(t))
}

/// The grid and marker elements written inside a `<TRACK>`.
pub open spec fn track_children(t: ExportTrack) -> Seq<TagView> {
    tempo_tags(t) + t.cues@.map_values(|c: ExportCue| cue_tag(c)) + t.loops@.map_values(|l: ExportLoop| loop_tag(l))
}

/// The collection track the reader makes of a written track.
pub open spec fn track_raw(t: ExportTrack) -> RawTrackView {
    RawTrackView { tag: tag_v("TRACK"@, track_attrs(t)), children: track_children(t) }
}

proof fn lemma_children_events(t: ExportTrack)
    ensures
        tempo_events(t) + t.cues@.map_values(|c: ExportCue| EventView::Empty(cue_tag(c)))
            + t.loops@.map_values(|l: ExportLoop| EventView::Empty(loop_tag(l))) =~= empties(track_children(t)),
        forall|i: int| 0 <= i < track_children(t).len() ==> is_track_child(#[trigger] track_children(t)[i].name),
        t.grid_bpm.is_none() && t.cues@.len() == 0 && t.loops@.len() == 0 ==> track_children(t).len() == 0,
{
    let a = tempo_events(t);
    let ta = tempo_tags(t);
    assert(a =~= empties(ta));
    let b = t.cues@.map_values(|c: ExportCue| cue_tag(c));
    let c = t.loops@.map_values(|l: ExportLoop| loop_tag(l));
    assert(t.cues@.map_values(|c: ExportCue| EventView::Empty(cue_tag(c))) =~= empties(b));
    assert(t.loops@.map_values(|l: ExportLoop| EventView::Empty(loop_tag(l))) =~= empties(c));
    assert(empties(ta) + empties(b) + empties(c) =~= empties(ta + b + c));
    let ch = track_children(t);
    assert forall|i: int| 0 <= i < ch.len() implies is_track_child(#[trigger] ch[i].name) by {
        if i < ta.len() {
            assert(ch[i] == ta[i]);
        } else if i < ta.len() + b.len() {
            assert(ch[i] == b[i - ta.len()]);
        } else {
            assert(ch[i] == c[i - ta.len() - b.len()]);
        }
    }
}

proof fn lemma_fold_children(s: ReadState, tags: Seq<TagView>)
    requires
        s.in_collection,
        !s.in_playlists,
        s.current is Some,
        forall|i: int| 0 <= i < tags.len() ==> is_track_child(#[trigger] tags[i].name),
    ensures
        fold(s, empties(tags)) == (ReadState {
            current: Some(RawTrackView { tag: s.current.unwrap().tag, children: s.current.unwrap().children + tags }),
            ..s
        }),
    decreases tags.len(),
{
    lemma_names();
    if tags.len() == 0 {
        assert(s.current.unwrap().children + tags =~= s.current.unwrap().children);
        assert(empties(tags).len() == 0);
    } else {
        let t0 = tags[0];
        assert(is_track_child(t0.name));
        assert(empties(tags)[0] == EventView::Empty(t0));
        assert(empties(tags).drop_first() =~= empties(tags.drop_first()));
        let s1 = step(s, EventView::Empty(t0));
        assert(s1 == with_child(s, t0));
        assert forall|i: int| 0 <= i < tags.drop_first().len() implies is_track_child(
            #[trigger] tags.drop_first()[i].name,
        ) by {
            assert(tags.drop_first()[i] == tags[i + 1]);
        }
        lemma_fold_children(s1, tags.drop_first());
        assert(s1.current.unwrap().children + tags.drop_first() =~= s.current.unwrap().children + tags);
    }
}

/// The state after a track is read.
pub open spec fn with_track(s: ReadState, r: RawTrackView) -> ReadState {
    ReadState { doc: DocView { tracks: s.doc.tracks.push(r), playlists: s.doc.playlists }, ..s }
}

proof fn lemma_step_track_empty(s: ReadState, tag: TagView)
    requires
        s.in_collection,
        s.current is None,
        tag.name == name_bytes("TRACK"@),
    ensures
        step(s, EventView::Empty(tag)) == with_track(s, RawTrackView { tag, children: Seq::empty() }),
{
}

proof fn lemma_step_track_open(s: ReadState, tag: TagView)
    requires
        s.in_collection,
        tag.name == name_bytes("TRACK"@),
    ensures
        step(s, EventView::Start(tag)) == (ReadState { current: Some(RawTrackView { tag, children: Seq::empty() }), ..s }),
{
    lemma_names();
}

proof fn lemma_step_track_close(s: ReadState)
    requires
        s.in_collection,
        s.current is Some,
    ensures
        step(s, EventView::End(name_bytes("TRACK"@))) == with_track(
            ReadState { current: None, ..s },
            s.current.unwrap(),
        ),
{
    lemma_names();
}

proof fn lemma_fold_one(s: ReadState, e: EventView)
    ensures
        fold(s, seq![e]) == step(s, e),
{
    assert(seq![e].drop_first() =~= Seq::<EventView>::empty());
    assert(seq![e][0] == e);
    assert(fold(step(s, e), Seq::<EventView>::empty()) == step(s, e));
}

proof fn lemma_fold_track(s: ReadState, t: ExportTrack)
    requires
        s.in_collection,
        !s.in_playlists,
        s.current is None,
    ensures
        fold(s, track_events(t)) == with_track(s, track_raw(t)),
{
    lemma_children_events(t);
    let tag = tag_v("TRACK"@, track_attrs(t));
    if t.grid_bpm.is_none() && t.cues@.len() == 0 && t.loops@.len() == 0 {
        let evs = track_events(t);
        assert(evs == seq![EventView::Empty(tag)]);
        assert(track_children(t) =~= Seq::<TagView>::empty());
        lemma_fold_one(s, EventView::Empty(tag));
        lemma_step_track_empty(s, tag);
    } else {
        let mid = empties(track_children(t));
        let open = seq![EventView::Start(tag)];
        let close = seq![EventView::End(name_bytes("TRACK"@))];
        let evs = track_events(t);
        assert(evs =~= open + mid + close);
        assert(open + (mid + close) =~= evs);
        lemma_fold_concat(s, open, mid + close);
        lemma_fold_one(s, EventView::Start(tag));
        lemma_step_track_open(s, tag);
        let s1 = ReadState { current: Some(RawTrackView { tag, children: Seq::empty() }), ..s };
        lemma_fold_concat(s1, mid, close);
        lemma_fold_children(s1, track_children(t));
        assert(Seq::<TagView>::empty() + track_children(t) =~= track_children(t));
        let s2 = fold(s1, mid);
        lemma_fold_one(s2, EventView::End(name_bytes("TRACK"@)));
        lemma_step_track_close(s2);
        assert(ReadState { current: None, ..s2 } == s);
    }
}

/// The state after tracks are read.
pub open spec fn with_tracks(s: ReadState, ts: Seq<ExportTrack>) -> ReadState {
    ReadState {
        doc: DocView {
            tracks: s.doc.tracks + ts.map_values(|t: ExportTrack| track_raw(t)),
            playlists: s.doc.playlists,
        },
        ..s
    }
}

proof fn lemma_fold_tracks(s: ReadState, ts: Seq<ExportTrack>)
    requires
        s.in_collection,
        !s.in_playlists,
        s.current is None,
    ensures
        fold(s, tracks_events(ts)) == with_tracks(s, ts),
    decreases ts.len(),
{
    if ts.len() == 0 {
        assert(s.doc.tracks + ts.map_values(|t: ExportTrack| track_raw(t)) =~= s.doc.tracks);
        assert(with_tracks(s, ts) =~= s);
    } else {
        let init = ts.drop_last();
        lemma_fold_tracks(s, init);
        lemma_fold_concat(s, tracks_events(init), track_events(ts.last()));
        lemma_fold_track(with_tracks(s, init), ts.last());
        assert(init.map_values(|t: ExportTrack| track_raw(t)).push(track_raw(ts.last())) =~= ts.map_values(
            |t: ExportTrack| track_raw(t),
        ));
        assert(s.doc.tracks + init.map_values(|t: ExportTrack| track_raw(t)).push(track_raw(ts.last())) =~= s.doc.tracks
            + ts.map_values(|t: ExportTrack| track_raw(t)));
    }
}

proof fn lemma_no_stop_concat(a: Seq<EventView>, b: Seq<EventView>)
    requires
        no_stop(a),
        no_stop(b),
    ensures
        no_stop(a + b),
{
    assert forall|i: int| 0 <= i < (a + b).len() implies !(#[trigger] (a + b)[i] is Eof) && !((a + b)[i] is Error) by {
        if i < a.len() {
            assert((a + b)[i] == a[i]);
        } else {
            assert((a + b)[i] == b[i - a.len()]);
        }
    }
}

proof fn lemma_no_stop_empties(tags: Seq<TagView>)
    ensures
        no_stop(empties(tags)),
{
}

proof fn lemma_track_no_stop(t: ExportTrack)
    ensures
        no_stop(track_events(t)),
{
    lemma_children_events(t);
    let tag = tag_v("TRACK"@, track_attrs(t));
    if !(t.grid_bpm.is_none() && t.cues@.len() == 0 && t.loops@.len() == 0) {
        let mid = empties(track_children(t));
        let open = seq![EventView::Start(tag)];
        let close = seq![EventView::End(name_bytes("TRACK"@))];
        assert(track_events(t) =~= open + mid + close);
        lemma_no_stop_empties(track_children(t));
        lemma_no_stop_concat(open, mid);
        lemma_no_stop_concat(open + mid, close);
    }
}

proof fn lemma_tracks_no_stop(ts: Seq<ExportTrack>)
    ensures
        no_stop(tracks_events(ts)),
    decreases ts.len(),
{
    if ts.len() > 0 {
        lemma_tracks_no_stop(ts.drop_last());
        lemma_track_no_stop(ts.last());
        lemma_no_stop_concat(tracks_events(ts.drop_last()), track_events(ts.last()));
    }
}

proof fn lemma_run_fold(s: ReadState, evs: Seq<EventView>)
    requires
        no_stop(evs),
    ensures
        run(s, evs) == Ok::<DocView, Seq<char>>(fold(s, evs).doc),
    decreases evs.len(),
{
    if evs.len() > 0 {
        assert(!(evs[0] is Eof) && !(evs[0] is Error));
        assert forall|i: int| 0 <= i < evs.drop_first().len() implies !(#[trigger] evs.drop_first()[i] is Eof) && !(
        evs.drop_first()[i] is Error) by {
            assert(evs.drop_first()[i] == evs[i + 1]);
        }
        lemma_run_fold(step(s, evs[0]), evs.drop_first());
    }
}

/// The nodes of the subtree at `i` in the order the writer visits them:
/// the node itself, then the subtrees of its children in index order.
pub open spec fn node_order(pl: Seq<PlaylistView>, i: int) -> Seq<int>
    decreases pl.len() - i, 1int, 0int,
{
    if i < 0 || i >= pl.len() {
        Seq::empty()
    } else {
        seq![i] + children_order(pl, i, i + 1)
    }
}

/// The subtrees of the children of node `i` found from index `from` on, in
/// the order the writer visits them.
pub open spec fn children_order(pl: Seq<PlaylistView>, i: int, from: int) -> Seq<int>
    decreases pl.len() - i, 0int, pl.len() - from,
{
    if from <= i || from >= pl.len() {
        Seq::empty()
    } else if pl[from].parent == Some(i as usize) {
        node_order(pl, from) + children_order(pl, i, from + 1)
    } else {
        children_order(pl, i, from + 1)
    }
}

/// The subtrees of the top-level nodes found from index `from` on, in the
/// order the writer visits them.
pub open spec fn roots_order(pl: Seq<PlaylistView>, from: int) -> Seq<int>
    decreases pl.len() - from,
{
    if from < 0 || from >= pl.len() {
        Seq::empty()
    } else if pl[from].parent.is_none() {
        node_order(pl, from) + roots_order(pl, from + 1)
    } else {
        roots_order(pl, from + 1)
    }
}

/// The indices `start`, `start + 1`, .. of a run of `len` nodes.
pub open spec fn span(start: int, len: int) -> Seq<int> {
    Seq::new(len as nat, |k: int| start + k)
}

/// The list holds its nodes in the order the writer visits them: every node
/// is reached from the top level, and each comes right before its subtree.
pub open spec fn in_write_order(pl: Seq<PlaylistView>) -> bool {
    roots_order(pl, 0) == span(0, pl.len() as int)
}

/// A node that holds other nodes is a folder: it holds no tracks of its own,
/// and it is not called `ROOT`, the reader's transparent top folder.
pub open spec fn parents_are_folders(pl: Seq<PlaylistView>) -> bool {
    forall|j: int|
        0 <= j < pl.len() ==> (#[trigger] pl[j].parent matches Some(p) ==> (p as int) < pl.len() ==> pl[p as int].track_ids.len()
            == 0 && pl[p as int].name != "ROOT"@)
}

proof fn lemma_span_split(x: Seq<int>, y: Seq<int>, start: int, len: int)
    requires
        x + y == span(start, len),
        len >= 0,
    ensures
        x == span(start, x.len() as int),
        y == span(start + x.len(), y.len() as int),
        x.len() + y.len() == len,
{
    assert((x + y).len() == len);
    assert forall|k: int| 0 <= k < x.len() implies x[k] == start + k by {
        assert((x + y)[k] == x[k]);
    }
    assert forall|k: int| 0 <= k < y.len() implies y[k] == start + x.len() + k by {
        assert((x + y)[x.len() + k] == y[k]);
    }
    assert(x =~= span(start, x.len() as int));
    assert(y =~= span(start + x.len(), y.len() as int));
}

proof fn lemma_has_child(pl: Seq<PlaylistView>, i: int, from: int) -> (j: int)
    requires
        count_children(pl, Some(i as usize), from) > 0,
    ensures
        0 <= from <= j < pl.len(),
        pl[j].parent == Some(i as usize),
    decreases pl.len() - from,
{
    if pl[from].parent == Some(i as usize) {
        from
    } else {
        lemma_has_child(pl, i, from + 1)
    }
}

proof fn lemma_no_children(pl: Seq<PlaylistView>, i: int, from: int)
    requires
        0 <= i,
        count_children(pl, Some(i as usize), from) == 0,
    ensures
        children_order(pl, i, from).len() == 0,
    decreases pl.len() - from,
{
    if i < from < pl.len() {
        lemma_no_children(pl, i, from + 1);
    }
}

proof fn lemma_enclosing_push(stack: Seq<NodeFrame>, f: NodeFrame)
    ensures
        f.crate_index.is_some() ==> enclosing_row(stack.push(f)) == f.crate_index,
        f.crate_index.is_none() ==> enclosing_row(stack.push(f)) == enclosing_row(stack),
{
    assert(stack.push(f).drop_last() =~= stack);
}

/// The frame of the transparent `ROOT` folder.
pub open spec fn root_frame() -> NodeFrame {
    NodeFrame { crate_index: None, is_playlist: false, keys_are_ids: false }
}

/// The `<NODE>` tag of a playlist.
pub open spec fn playlist_tag(p: PlaylistView) -> TagView {
    tag_v("NODE"@, seq![
        attr_v("Name"@, p.name),
        attr_v("Type"@, "1"@),
        attr_v("KeyType"@, "0"@),
        attr_v("Entries"@, int_display(p.track_ids.len() as int)),
    ])
}

/// The state with one more id at the end of playlist row `idx`.
pub open spec fn with_member(s: ReadState, idx: int, id: i64) -> ReadState {
    let p = s.doc.playlists[idx];
    ReadState {
        doc: DocView {
            tracks: s.doc.tracks,
            playlists: s.doc.playlists.update(idx, PlaylistView { name: p.name, parent: p.parent, track_ids: p.track_ids.push(id) }),
        },
        ..s
    }
}

proof fn lemma_step_member(s: ReadState, id: i64)
    requires
        !s.in_collection,
        s.in_playlists,
        s.stack.len() > 0,
        s.stack.last() == (NodeFrame { crate_index: Some((s.doc.playlists.len() - 1) as usize), is_playlist: true, keys_are_ids: true }),
        s.doc.playlists.len() > 0,
        s.doc.playlists.len() <= usize::MAX,
    ensures
        step(s, EventView::Empty(tag_v("TRACK"@, seq![attr_v("Key"@, int_display(id as int))]))) == with_member(
            s,
            s.doc.playlists.len() - 1,
            id,
        ),
{
    lemma_names();
    lemma_display_parses(id as int);
    let t = tag_v("TRACK"@, seq![attr_v("Key"@, int_display(id as int))]);
    assert(attr_spec(t.attrs, name_bytes("Key"@)) == Some(int_display(id as int)));
    assert(((s.doc.playlists.len() - 1) as usize) as int == s.doc.playlists.len() - 1);
    assert(add_member_spec(t, s.doc, s.stack) == with_member(s, s.doc.playlists.len() - 1, id).doc);
}

proof fn lemma_fold_members(s: ReadState, ids: Seq<i64>)
    requires
        !s.in_collection,
        s.in_playlists,
        s.stack.len() > 0,
        s.stack.last() == (NodeFrame { crate_index: Some((s.doc.playlists.len() - 1) as usize), is_playlist: true, keys_are_ids: true }),
        s.doc.playlists.len() > 0,
        s.doc.playlists.len() <= usize::MAX,
    ensures
        fold(s, member_events(ids)) == (ReadState {
            doc: DocView {
                tracks: s.doc.tracks,
                playlists: s.doc.playlists.update(
                    s.doc.playlists.len() - 1,
                    PlaylistView {
                        name: s.doc.playlists.last().name,
                        parent: s.doc.playlists.last().parent,
                        track_ids: s.doc.playlists.last().track_ids + ids,
                    },
                ),
            },
            ..s
        }),
        no_stop(member_events(ids)),
    decreases ids.len(),
{
    let idx = s.doc.playlists.len() - 1;
    if ids.len() == 0 {
        assert(s.doc.playlists.last().track_ids + ids =~= s.doc.playlists.last().track_ids);
        assert(s.doc.playlists.update(idx, s.doc.playlists.last()) =~= s.doc.playlists);
        assert(member_events(ids).len() == 0);
    } else {
        let init = ids.drop_last();
        lemma_fold_members(s, init);
        assert(member_events(ids) =~= member_events(init) + seq![
            EventView::Empty(tag_v("TRACK"@, seq![attr_v("Key"@, int_display(ids.last() as int))])),
        ]);
        lemma_fold_concat(s, member_events(init), seq![
            EventView::Empty(tag_v("TRACK"@, seq![attr_v("Key"@, int_display(ids.last() as int))])),
        ]);
        let s1 = fold(s, member_events(init));
        lemma_fold_one(s1, EventView::Empty(tag_v("TRACK"@, seq![attr_v("Key"@, int_display(ids.last() as int))])));
        lemma_step_member(s1, ids.last());
        assert(s.doc.playlists.last().track_ids + init.push(ids.last()) =~= (s.doc.playlists.last().track_ids + init).push(ids.last()));
        assert(init.push(ids.last()) =~= ids);
        assert(with_member(s1, idx, ids.last()).doc.playlists =~= s.doc.playlists.update(
            idx,
            PlaylistView {
                name: s.doc.playlists.last().name,
                parent: s.doc.playlists.last().parent,
                track_ids: s.doc.playlists.last().track_ids + ids,
            },
        ));
        lemma_no_stop_concat(member_events(init), seq![
            EventView::Empty(tag_v("TRACK"@, seq![attr_v("Key"@, int_display(ids.last() as int))])),
        ]);
    }
}

proof fn lemma_step_playlist_open(s: ReadState, p: PlaylistView)
    requires
        !s.in_collection,
        s.in_playlists,
    ensures
        step(s, EventView::Start(playlist_tag(p))) == (ReadState {
            doc: DocView {
                tracks: s.doc.tracks,
                playlists: s.doc.playlists.push(PlaylistView { name: p.name, parent: enclosing_row(s.stack), track_ids: Seq::empty() }),
            },
            stack: s.stack.push(NodeFrame { crate_index: Some(s.doc.playlists.len() as usize), is_playlist: true, keys_are_ids: true }),
            ..s
        }),
{
    lemma_names();
    reveal_strlit("0");
    reveal_strlit("1");
    let t = playlist_tag(p);
    let a = t.attrs;
    assert(a.drop_first()[0].key == name_bytes("Type"@));
    assert(attr_spec(a.drop_first(), name_bytes("Type"@)) == Some("1"@));
    assert(attr_spec(a, name_bytes("Type"@)) == Some("1"@));
    assert(attr_spec(a, name_bytes("Name"@)) == Some(p.name));
    assert(a.drop_first().drop_first()[0].key == name_bytes("KeyType"@));
    assert(attr_spec(a.drop_first().drop_first(), name_bytes("KeyType"@)) == Some("0"@));
    assert(attr_spec(a.drop_first(), name_bytes("KeyType"@)) == Some("0"@));
    assert(attr_spec(a, name_bytes("KeyType"@)) == Some("0"@));
    assert("1"@ != "0"@) by {
        assert("1"@[0] != "0"@[0]);
    }
}

/// The `<NODE>` tag of a folder with `n` children.
pub open spec fn folder_tag(p: PlaylistView, n: int) -> TagView {
    tag_v("NODE"@, seq![attr_v("Name"@, p.name), attr_v("Type"@, "0"@), attr_v("Count"@, int_display(n))])
}

proof fn lemma_step_folder_open(s: ReadState, p: PlaylistView, n: int)
    requires
        !s.in_collection,
        s.in_playlists,
        p.name != "ROOT"@,
    ensures
        step(s, EventView::Start(folder_tag(p, n))) == (ReadState {
            doc: DocView {
                tracks: s.doc.tracks,
                playlists: s.doc.playlists.push(PlaylistView { name: p.name, parent: enclosing_row(s.stack), track_ids: Seq::empty() }),
            },
            stack: s.stack.push(NodeFrame { crate_index: Some(s.doc.playlists.len() as usize), is_playlist: false, keys_are_ids: false }),
            ..s
        }),
{
    lemma_names();
    reveal_strlit("0");
    let t = folder_tag(p, n);
    let a = t.attrs;
    assert(attr_spec(a, name_bytes("Name"@)) == Some(p.name));
    assert(a.drop_first()[0].key == name_bytes("Type"@));
    assert(attr_spec(a.drop_first(), name_bytes("Type"@)) == Some("0"@));
    assert(attr_spec(a, name_bytes("Type"@)) == Some("0"@));
}

proof fn lemma_step_node_close(s: ReadState)
    requires
        !s.in_collection,
        s.in_playlists,
        s.stack.len() > 0,
    ensures
        step(s, EventView::End(name_bytes("NODE"@))) == (ReadState { stack: s.stack.drop_last(), ..s }),
{
    lemma_names();
}

/// A node without children is read back as a playlist holding its members.
proof fn lemma_fold_leaf(s: ReadState, pl: Seq<PlaylistView>, i: int)
    requires
        !s.in_collection,
        s.in_playlists,
        s.doc.playlists.len() < usize::MAX,
        0 <= i < pl.len(),
        count_children(pl, Some(i as usize), i + 1) == 0,
        enclosing_row(s.stack) == pl[i].parent,
    ensures
        fold(s, node_events(pl, i)) == (ReadState {
            doc: DocView { tracks: s.doc.tracks, playlists: s.doc.playlists.push(pl[i]) },
            ..s
        }),
        no_stop(node_events(pl, i)),
{
    let p = pl[i];
    let open = seq![EventView::Start(playlist_tag(p))];
    let mid = member_events(p.track_ids);
    let close = seq![EventView::End(name_bytes("NODE"@))];
    assert(node_events(pl, i) =~= open + mid + close);
    assert(open + (mid + close) =~= node_events(pl, i));
    lemma_fold_concat(s, open, mid + close);
    lemma_fold_one(s, EventView::Start(playlist_tag(p)));
    lemma_step_playlist_open(s, p);
    let s1 = step(s, EventView::Start(playlist_tag(p)));
    assert(s1.doc.playlists.last() == PlaylistView { name: p.name, parent: p.parent, track_ids: Seq::empty() });
    lemma_fold_concat(s1, mid, close);
    lemma_fold_members(s1, p.track_ids);
    let s2 = fold(s1, mid);
    assert(Seq::<i64>::empty() + p.track_ids =~= p.track_ids);
    assert(s2.doc.playlists =~= s.doc.playlists.push(p));
    lemma_fold_one(s2, EventView::End(name_bytes("NODE"@)));
    lemma_step_node_close(s2);
    assert(s2.stack.drop_last() =~= s.stack);
    lemma_no_stop_concat(open, mid);
    lemma_no_stop_concat(open + mid, close);
}

/// Reading the subtree at `i`, visited in index order, appends its nodes.
proof fn lemma_fold_node(s: ReadState, pl: Seq<PlaylistView>, i: int, len: int)
    requires
        !s.in_collection,
        s.in_playlists,
        parents_are_folders(pl),
        pl.len() <= usize::MAX,
        0 <= i < pl.len(),
        0 <= len,
        i + len <= pl.len(),
        node_order(pl, i) == span(i, len),
        s.doc.playlists == pl.take(i),
        enclosing_row(s.stack) == pl[i].parent,
    ensures
        fold(s, node_events(pl, i)) == (ReadState {
            doc: DocView { tracks: s.doc.tracks, playlists: pl.take(i + len) },
            ..s
        }),
        no_stop(node_events(pl, i)),
    decreases pl.len() - i, 1int, 0int,
{
    let n = count_children(pl, Some(i as usize), i + 1);
    lemma_span_split(seq![i], children_order(pl, i, i + 1), i, len);
    if n == 0 {
        lemma_no_children(pl, i, i + 1);
        lemma_fold_leaf(s, pl, i);
        assert(pl.take(i).push(pl[i]) =~= pl.take(i + 1));
    } else {
        let j = lemma_has_child(pl, i, i + 1);
        assert(pl[j].parent matches Some(q) && q as int == i);
        let p = pl[i];
        assert(p.track_ids =~= Seq::<i64>::empty());
        let open = seq![EventView::Start(folder_tag(p, n as int))];
        let mid = children_events(pl, i, i + 1);
        let close = seq![EventView::End(name_bytes("NODE"@))];
        assert(node_events(pl, i) =~= open + mid + close);
        lemma_fold_concat(s, open + mid, close);
        lemma_fold_concat(s, open, mid);
        lemma_fold_one(s, open[0]);
        lemma_step_folder_open(s, p, n as int);
        let frame = NodeFrame { crate_index: Some(i as usize), is_playlist: false, keys_are_ids: false };
        assert(s.doc.playlists.push(p) =~= pl.take(i + 1));
        let s1 = ReadState { doc: DocView { tracks: s.doc.tracks, playlists: pl.take(i + 1) }, stack: s.stack.push(frame), ..s };
        assert(step(s, open[0]) == s1);
        lemma_enclosing_push(s.stack, frame);
        lemma_fold_subtrees(s1, pl, i, i + 1, i + 1, len - 1);
        let s2 = ReadState { doc: DocView { tracks: s.doc.tracks, playlists: pl.take(i + len) }, ..s1 };
        lemma_fold_one(s2, close[0]);
        lemma_step_node_close(s2);
        assert(s2.stack.drop_last() =~= s.stack);
        lemma_no_stop_concat(open, mid);
        lemma_no_stop_concat(open + mid, close);
    }
}

/// Reading the subtrees of the children of `i` from index `from` on,
/// visited in index order, appends their nodes.
proof fn lemma_fold_subtrees(s: ReadState, pl: Seq<PlaylistView>, i: int, from: int, start: int, len: int)
    requires
        !s.in_collection,
        s.in_playlists,
        parents_are_folders(pl),
        pl.len() <= usize::MAX,
        0 <= i < pl.len(),
        0 <= start,
        0 <= len,
        start + len <= pl.len(),
        children_order(pl, i, from) == span(start, len),
        s.doc.playlists == pl.take(start),
        enclosing_row(s.stack) == Some(i as usize),
    ensures
        fold(s, children_events(pl, i, from)) == (ReadState {
            doc: DocView { tracks: s.doc.tracks, playlists: pl.take(start + len) },
            ..s
        }),
        no_stop(children_events(pl, i, from)),
    decreases pl.len() - i, 0int, pl.len() - from,
{
    if from <= i || from >= pl.len() {
        assert(span(start, len).len() == 0);
        assert(children_events(pl, i, from) =~= Seq::<EventView>::empty());
    } else if pl[from].parent == Some(i as usize) {
        let x = node_order(pl, from);
        let y = children_order(pl, i, from + 1);
        lemma_span_split(x, y, start, len);
        assert(x[0] == from);
        assert(span(start, x.len() as int)[0] == start);
        lemma_fold_node(s, pl, from, x.len() as int);
        let s1 = ReadState { doc: DocView { tracks: s.doc.tracks, playlists: pl.take(from + x.len()) }, ..s };
        lemma_fold_subtrees(s1, pl, i, from + 1, start + x.len(), y.len() as int);
        lemma_fold_concat(s, node_events(pl, from), children_events(pl, i, from + 1));
        lemma_no_stop_concat(node_events(pl, from), children_events(pl, i, from + 1));
    } else {
        lemma_fold_subtrees(s, pl, i, from + 1, start, len);
    }
}

/// Reading the top-level subtrees from index `from` on, visited in index
/// order, appends their nodes.
proof fn lemma_fold_roots(s: ReadState, pl: Seq<PlaylistView>, from: int, start: int, len: int)
    requires
        !s.in_collection,
        s.in_playlists,
        s.stack == seq![root_frame()],
        parents_are_folders(pl),
        pl.len() <= usize::MAX,
        0 <= start,
        0 <= len,
        start + len <= pl.len(),
        roots_order(pl, from) == span(start, len),
        s.doc.playlists == pl.take(start),
    ensures
        fold(s, roots_events(pl, from)) == (ReadState {
            doc: DocView { tracks: s.doc.tracks, playlists: pl.take(start + len) },
            ..s
        }),
        no_stop(roots_events(pl, from)),
    decreases pl.len() - from,
{
    if from < 0 || from >= pl.len() {
        assert(span(start, len).len() == 0);
        assert(roots_events(pl, from) =~= Seq::<EventView>::empty());
    } else if pl[from].parent.is_none() {
        let x = node_order(pl, from);
        let y = roots_order(pl, from + 1);
        lemma_span_split(x, y, start, len);
        assert(x[0] == from);
        assert(span(start, x.len() as int)[0] == start);
        lemma_enclosing_push(Seq::empty(), root_frame());
        assert(Seq::<NodeFrame>::empty().push(root_frame()) =~= s.stack);
        lemma_fold_node(s, pl, from, x.len() as int);
        let s1 = ReadState { doc: DocView { tracks: s.doc.tracks, playlists: pl.take(from + x.len()) }, ..s };
        lemma_fold_roots(s1, pl, from + 1, start + x.len(), y.len() as int);
        lemma_fold_concat(s, node_events(pl, from), roots_events(pl, from + 1));
        lemma_no_stop_concat(node_events(pl, from), roots_events(pl, from + 1));
    } else {
        lemma_fold_roots(s, pl, from + 1, start, len);
    }
}

proof fn lemma_fold_two(s: ReadState, a: EventView, b: EventView)
    ensures
        fold(s, seq![a, b]) == step(step(s, a), b),
{
    assert(seq![a, b] =~= seq![a] + seq![b]);
    lemma_fold_concat(s, seq![a], seq![b]);
    lemma_fold_one(s, a);
    lemma_fold_one(step(s, a), b);
}

proof fn lemma_fold_prologue(ts: Seq<ExportTrack>)
    ensures
        fold(initial_state(), seq![
            EventView::Start(tag_v("DJ_PLAYLISTS"@, seq![attr_v("Version"@, "1.0.0"@)])),
            EventView::Empty(tag_v("PRODUCT"@, seq![
                attr_v("Name"@, "Dub"@),
                attr_v("Version"@, crate::VERSION@),
                attr_v("Company"@, "Dub"@),
            ])),
        ]) == initial_state(),
{
    lemma_names();
    let a = EventView::Start(tag_v("DJ_PLAYLISTS"@, seq![attr_v("Version"@, "1.0.0"@)]));
    let b = EventView::Empty(tag_v("PRODUCT"@, seq![
        attr_v("Name"@, "Dub"@),
        attr_v("Version"@, crate::VERSION@),
        attr_v("Company"@, "Dub"@),
    ]));
    lemma_fold_two(initial_state(), a, b);
    assert(step(initial_state(), a) == initial_state());
    assert(step(initial_state(), b) == initial_state());
}

proof fn lemma_fold_collection(s: ReadState, ts: Seq<ExportTrack>)
    requires
        !s.in_collection,
        !s.in_playlists,
        s.current is None,
    ensures
        fold(s, collection_events(ts)) == with_tracks(s, ts),
        no_stop(collection_events(ts)),
{
    lemma_names();
    let open = seq![EventView::Start(tag_v("COLLECTION"@, seq![attr_v("Entries"@, int_display(ts.len() as int))]))];
    let close = seq![EventView::End(name_bytes("COLLECTION"@))];
    let mid = tracks_events(ts);
    assert(collection_events(ts) =~= open + mid + close);
    lemma_fold_concat(s, open + mid, close);
    lemma_fold_concat(s, open, mid);
    lemma_fold_one(s, open[0]);
    let s1 = ReadState { in_collection: true, ..s };
    assert(step(s, open[0]) == s1);
    lemma_fold_tracks(s1, ts);
    let s2 = with_tracks(s1, ts);
    lemma_fold_one(s2, close[0]);
    assert(step(s2, close[0]) == with_tracks(s, ts));
    lemma_tracks_no_stop(ts);
    lemma_no_stop_concat(open, mid);
    lemma_no_stop_concat(open + mid, close);
}

/// The `<NODE>` tag of the transparent `ROOT` folder.
pub open spec fn root_tag(pl: Seq<PlaylistView>) -> TagView {
    tag_v("NODE"@, seq![
        attr_v("Type"@, "0"@),
        attr_v("Name"@, "ROOT"@),
        attr_v("Count"@, int_display(count_children(pl, None, 0) as int)),
    ])
}

proof fn lemma_step_root_open(s: ReadState, pl: Seq<PlaylistView>)
    requires
        !s.in_collection,
        s.in_playlists,
    ensures
        step(s, EventView::Start(root_tag(pl))) == (ReadState { stack: s.stack.push(root_frame()), ..s }),
{
    lemma_names();
    reveal_strlit("0");
    reveal_strlit("1");
    reveal_strlit("ROOT");
    let t = root_tag(pl);
    let a = t.attrs;
    assert(attr_spec(a, name_bytes("Type"@)) == Some("0"@));
    assert(a.drop_first()[0].key == name_bytes("Name"@));
    assert(attr_spec(a.drop_first(), name_bytes("Name"@)) == Some("ROOT"@));
    assert(attr_spec(a, name_bytes("Name"@)) == Some("ROOT"@));
    assert("0"@ != "1"@) by {
        assert("1"@[0] != "0"@[0]);
    }
    assert(open_node_spec(t, s.doc, s.stack) == (s.doc, root_frame()));
}

proof fn lemma_step_playlists_open(s: ReadState)
    requires
        !s.in_collection,
    ensures
        step(s, EventView::Start(tag_v("PLAYLISTS"@, Seq::empty()))) == (ReadState { in_playlists: true, ..s }),
{
    lemma_names();
}

proof fn lemma_step_playlists_close(s: ReadState)
    ensures
        step(s, EventView::End(name_bytes("PLAYLISTS"@))) == (ReadState { in_playlists: false, ..s }),
{
    lemma_names();
}

proof fn lemma_fold_playlists(s: ReadState, pl: Seq<PlaylistView>)
    requires
        !s.in_collection,
        !s.in_playlists,
        s.stack.len() == 0,
        s.doc.playlists.len() == 0,
        in_write_order(pl),
        parents_are_folders(pl),
        pl.len() <= usize::MAX,
    ensures
        fold(s, playlists_events(pl)) == (ReadState { doc: DocView { tracks: s.doc.tracks, playlists: pl }, ..s }),
        no_stop(playlists_events(pl)),
{
    let open = seq![EventView::Start(tag_v("PLAYLISTS"@, Seq::empty())), EventView::Start(root_tag(pl))];
    let close = seq![EventView::End(name_bytes("NODE"@)), EventView::End(name_bytes("PLAYLISTS"@))];
    let mid = roots_events(pl, 0);
    assert(playlists_events(pl) =~= open + mid + close);
    lemma_fold_concat(s, open + mid, close);
    lemma_fold_concat(s, open, mid);
    lemma_fold_two(s, open[0], open[1]);
    lemma_step_playlists_open(s);
    let s1 = ReadState { in_playlists: true, ..s };
    lemma_step_root_open(s1, pl);
    assert(s1.stack.push(root_frame()) =~= seq![root_frame()]);
    let s2 = ReadState { stack: seq![root_frame()], ..s1 };
    assert(pl.take(0) =~= Seq::<PlaylistView>::empty());
    assert(s.doc.playlists =~= Seq::<PlaylistView>::empty());
    lemma_fold_roots(s2, pl, 0, 0, pl.len() as int);
    assert(pl.take(pl.len() as int) =~= pl);
    let s3 = ReadState { doc: DocView { tracks: s.doc.tracks, playlists: pl }, ..s2 };
    lemma_fold_two(s3, close[0], close[1]);
    lemma_step_node_close(s3);
    assert(s3.stack.drop_last() =~= Seq::<NodeFrame>::empty());
    let s4 = ReadState { stack: Seq::empty(), ..s3 };
    lemma_step_playlists_close(s4);
    assert(ReadState { in_playlists: false, ..s4 } == ReadState { doc: DocView { tracks: s.doc.tracks, playlists: pl }, ..s });
    lemma_no_stop_concat(open, mid);
    lemma_no_stop_concat(open + mid, close);
}

/// What the writer writes, the reader reads back: reading a written
/// document gives one raw collection track per written track (its `<TRACK>`
/// element and its grid and marker elements as written) and exactly the
/// playlist tree, names, parents, members and order included, for every
/// tree listed in the order the writer visits it whose folders are folders.
pub proof fn lemma_export_round_trip(ts: Seq<ExportTrack>, pl: Seq<PlaylistView>)
    requires
        in_write_order(pl),
        parents_are_folders(pl),
        pl.len() <= usize::MAX,
    ensures
        read_spec(document_events(ts, pl)) == Ok::<DocView, Seq<char>>(DocView {
            tracks: ts.map_values(|t: ExportTrack| track_raw(t)),
            playlists: pl,
        }),
{
    lemma_names();
    let a = seq![
        EventView::Start(tag_v("DJ_PLAYLISTS"@, seq![attr_v("Version"@, "1.0.0"@)])),
        EventView::Empty(tag_v("PRODUCT"@, seq![
            attr_v("Name"@, "Dub"@),
            attr_v("Version"@, crate::VERSION@),
            attr_v("Company"@, "Dub"@),
        ])),
    ];
    let c = collection_events(ts);
    let p = playlists_events(pl);
    let d = seq![EventView::End(name_bytes("DJ_PLAYLISTS"@))];
    let e = document_events(ts, pl);
    assert(e =~= a + c + p + d);
    lemma_fold_concat(initial_state(), a + c + p, d);
    lemma_fold_concat(initial_state(), a + c, p);
    lemma_fold_concat(initial_state(), a, c);
    lemma_fold_prologue(ts);
    let s0 = initial_state();
    lemma_fold_collection(s0, ts);
    let s1 = with_tracks(s0, ts);
    lemma_fold_playlists(s1, pl);
    let s2 = ReadState { doc: DocView { tracks: s1.doc.tracks, playlists: pl }, ..s1 };
    lemma_fold_one(s2, d[0]);
    assert(step(s2, d[0]) == s2);
    assert(Seq::<RawTrackView>::empty() + ts.map_values(|t: ExportTrack| track_raw(t)) =~= ts.map_values(
        |t: ExportTrack| track_raw(t),
    ));
    assert(no_stop(a));
    assert(no_stop(d));
    lemma_no_stop_concat(a, c);
    lemma_no_stop_concat(a + c, p);
    lemma_no_stop_concat(a + c + p, d);
    lemma_run_fold(s0, e);
}

/// Some attribute of the list is called `k`.
pub open spec fn has_key(a: Seq<AttrView>, k: Seq<u8>) -> bool {
    exists|i: int| 0 <= i < a.len() && (#[trigger] a[i]).key == k
}

proof fn lemma_attr_concat(a: Seq<AttrView>, b: Seq<AttrView>, k: Seq<u8>)
    ensures
        attr_spec(a + b, k) == (if has_key(a, k) { attr_spec(a, k) } else { attr_spec(b, k) }),
    decreases a.len(),
{
    if a.len() == 0 {
        assert(a + b =~= b);
    } else {
        assert((a + b)[0] == a[0]);
        assert((a + b).drop_first() =~= a.drop_first() + b);
        lemma_attr_concat(a.drop_first(), b, k);
        if a[0].key != k {
            if has_key(a, k) {
                let i = choose|i: int| 0 <= i < a.len() && (#[trigger] a[i]).key == k;
                assert(a.drop_first()[i - 1] == a[i]);
            }
            if has_key(a.drop_first(), k) {
                let i = choose|i: int| 0 <= i < a.drop_first().len() && (#[trigger] a.drop_first()[i]).key == k;
                assert(a[i + 1] == a.drop_first()[i]);
            }
        } else {
            assert(has_key(a, k)) by {
                assert(a[0].key == k);
            }
        }
    }
}

proof fn lemma_has_key_concat(a: Seq<AttrView>, b: Seq<AttrView>, k: Seq<u8>)
    ensures
        has_key(a + b, k) == (has_key(a, k) || has_key(b, k)),
{
    if has_key(a + b, k) {
        let i = choose|i: int| 0 <= i < (a + b).len() && (#[trigger] (a + b)[i]).key == k;
        if i < a.len() {
            assert(a[i] == (a + b)[i]);
        } else {
            assert(b[i - a.len()] == (a + b)[i]);
        }
    }
    if has_key(a, k) {
        let i = choose|i: int| 0 <= i < a.len() && (#[trigger] a[i]).key == k;
        assert((a + b)[i] == a[i]);
    }
    if has_key(b, k) {
        let i = choose|i: int| 0 <= i < b.len() && (#[trigger] b[i]).key == k;
        assert((a + b)[i + a.len()] == b[i]);
    }
}

proof fn lemma_no_key(a: Seq<AttrView>, k: Seq<u8>)
    requires
        !has_key(a, k),
    ensures
        attr_spec(a, k) == None::<Seq<char>>,
    decreases a.len(),
{
    if a.len() > 0 {
        assert(a[0].key != k);
        assert(!has_key(a.drop_first(), k)) by {
            if has_key(a.drop_first(), k) {
                let i = choose|i: int| 0 <= i < a.drop_first().len() && (#[trigger] a.drop_first()[i]).key == k;
                assert(a[i + 1] == a.drop_first()[i]);
            }
        }
        lemma_no_key(a.drop_first(), k);
    }
}

/// A list whose every attribute is called `key`.
pub open spec fn all_called(a: Seq<AttrView>, key: Seq<char>) -> bool {
    forall|i: int| 0 <= i < a.len() ==> (#[trigger] a[i]).key == name_bytes(key)
}

proof fn lemma_other_key(a: Seq<AttrView>, key: Seq<char>, k: Seq<u8>)
    requires
        all_called(a, key),
        name_bytes(key) != k,
    ensures
        !has_key(a, k),
{
}

/// `attr_spec` over `a + b` when `b` has no attribute called `k`.
proof fn lemma_attr_left(a: Seq<AttrView>, b: Seq<AttrView>, k: Seq<u8>)
    requires
        !has_key(b, k),
    ensures
        attr_spec(a + b, k) == attr_spec(a, k),
        has_key(a + b, k) == has_key(a, k),
{
    lemma_attr_concat(a, b, k);
    lemma_has_key_concat(a, b, k);
    if !has_key(a, k) {
        lemma_no_key(a, k);
        lemma_no_key(b, k);
    }
}

/// `attr_spec` over `a + b` when `a` has no attribute called `k`.
proof fn lemma_attr_right(a: Seq<AttrView>, b: Seq<AttrView>, k: Seq<u8>)
    requires
        !has_key(a, k),
    ensures
        attr_spec(a + b, k) == attr_spec(b, k),
        has_key(a + b, k) == has_key(b, k),
{
    lemma_attr_concat(a, b, k);
    lemma_has_key_concat(a, b, k);
}

/// The left-nested concatenation of a list of attribute blocks.
pub open spec fn chain(blocks: Seq<Seq<AttrView>>) -> Seq<AttrView>
    decreases blocks.len(),
{
    if blocks.len() == 0 {
        Seq::empty()
    } else {
        chain(blocks.drop_last()) + blocks.last()
    }
}

proof fn lemma_name_bytes_injective(a: Seq<char>, b: Seq<char>)
    requires
        is_ascii_chars(a),
        is_ascii_chars(b),
        a != b,
    ensures
        name_bytes(a) != name_bytes(b),
{
    lemma_ascii(a);
    lemma_ascii(b);
    if name_bytes(a) == name_bytes(b) {
        assert forall|i: int| 0 <= i < a.len() implies a[i] == b[i] by {
            assert(name_bytes(a)[i] == name_bytes(b)[i]);
            assert('\0' <= a[i] <= '\u{7f}');
            assert('\0' <= b[i] <= '\u{7f}');
        }
        assert(a =~= b);
    }
}

proof fn lemma_chain_absent(blocks: Seq<Seq<AttrView>>, keys: Seq<Seq<char>>, k: Seq<u8>)
    requires
        blocks.len() == keys.len(),
        forall|i: int| 0 <= i < blocks.len() ==> all_called(#[trigger] blocks[i], keys[i]),
        forall|i: int| 0 <= i < keys.len() ==> name_bytes(#[trigger] keys[i]) != k,
    ensures
        !has_key(chain(blocks), k),
    decreases blocks.len(),
{
    if blocks.len() > 0 {
        let n = blocks.len() - 1;
        assert(all_called(blocks[n], keys[n]));
        assert(name_bytes(keys[n]) != k);
        lemma_chain_absent(blocks.drop_last(), keys.drop_last(), k);
        lemma_other_key(blocks.last(), keys.last(), k);
        lemma_has_key_concat(chain(blocks.drop_last()), blocks.last(), k);
    }
}

proof fn lemma_chain_pick(blocks: Seq<Seq<AttrView>>, keys: Seq<Seq<char>>, j: int)
    requires
        blocks.len() == keys.len(),
        0 <= j < blocks.len(),
        forall|i: int| 0 <= i < blocks.len() ==> all_called(#[trigger] blocks[i], keys[i]),
        forall|i: int| 0 <= i < keys.len() && i != j ==> name_bytes(#[trigger] keys[i]) != name_bytes(keys[j]),
    ensures
        attr_spec(chain(blocks), name_bytes(keys[j])) == attr_spec(blocks[j], name_bytes(keys[j])),
    decreases blocks.len(),
{
    let n = blocks.len() - 1;
    let k = name_bytes(keys[j]);
    if j == n {
        lemma_chain_absent(blocks.drop_last(), keys.drop_last(), k);
        lemma_attr_right(chain(blocks.drop_last()), blocks.last(), k);
    } else {
        assert(all_called(blocks[n], keys[n]));
        assert(name_bytes(keys[n]) != k);
        lemma_chain_pick(blocks.drop_last(), keys.drop_last(), j);
        lemma_other_key(blocks.last(), keys.last(), k);
        lemma_attr_left(chain(blocks.drop_last()), blocks.last(), k);
    }
}

/// The attribute names of a collection `<TRACK>`, in the order written.
pub open spec fn track_keys() -> Seq<Seq<char>> {
    seq![
        "TrackID"@,
        "Name"@,
        "Artist"@,
        "Composer"@,
        "Album"@,
        "Genre"@,
        "Comments"@,
        "Tonality"@,
        "AverageBpm"@,
        "TotalTime"@,
        "Year"@,
        "TrackNumber"@,
        "Rating"@,
        "Colour"@,
        "Location"@,
    ]
}

/// The attribute blocks of a written `<TRACK>`, one per name of `track_keys`.
pub open spec fn track_blocks(t: ExportTrack) -> Seq<Seq<AttrView>> {
    Seq::empty()
        .push(seq![attr_v("TrackID"@, int_display(t.track_id as int))])
        .push(text_attr("Name"@, opt_view(t.title)))
        .push(text_attr("Artist"@, opt_view(t.artist)))
        .push(text_attr("Composer"@, opt_view(t.composer)))
        .push(text_attr("Album"@, opt_view(t.album)))
        .push(text_attr("Genre"@, opt_view(t.genre)))
        .push(text_attr("Comments"@, opt_view(t.comment)))
        .push(text_attr("Tonality"@, opt_view(t.key)))
        .push(some_attr("AverageBpm"@, opt_view(t.bpm)))
        .push(some_attr("TotalTime"@, opt_view(t.total_time)))
        .push(int_attr("Year"@, t.year))
        .push(int_attr("TrackNumber"@, t.track_number))
        .push(rating_attr(t.rating))
        .push(colour_attr(opt_view(t.color)))
        .push(location_attr(opt_view(t.path)))
}

proof fn lemma_track_keys_ascii()
    ensures
        forall|i: int| 0 <= i < 15 ==> is_ascii_chars(#[trigger] track_keys()[i]),
        track_keys().len() == 15,
{
    reveal_strlit("TrackID");
    reveal_strlit("Name");
    reveal_strlit("Artist");
    reveal_strlit("Composer");
    reveal_strlit("Album");
    reveal_strlit("Genre");
    reveal_strlit("Comments");
    reveal_strlit("Tonality");
    reveal_strlit("AverageBpm");
    reveal_strlit("TotalTime");
    reveal_strlit("Year");
    reveal_strlit("TrackNumber");
    reveal_strlit("Rating");
    reveal_strlit("Colour");
    reveal_strlit("Location");
}

proof fn lemma_track_keys_distinct(j: int)
    requires
        0 <= j < 15,
    ensures
        forall|i: int| 0 <= i < 15 && i != j ==> name_bytes(#[trigger] track_keys()[i]) != name_bytes(track_keys()[j]),
{
    lemma_track_keys_ascii();
    reveal_strlit("TrackID");
    reveal_strlit("Name");
    reveal_strlit("Artist");
    reveal_strlit("Composer");
    reveal_strlit("Album");
    reveal_strlit("Genre");
    reveal_strlit("Comments");
    reveal_strlit("Tonality");
    reveal_strlit("AverageBpm");
    reveal_strlit("TotalTime");
    reveal_strlit("Year");
    reveal_strlit("TrackNumber");
    reveal_strlit("Rating");
    reveal_strlit("Colour");
    reveal_strlit("Location");
    let ks = track_keys();
    assert forall|i: int| 0 <= i < 15 && i != j implies name_bytes(#[trigger] ks[i]) != name_bytes(ks[j]) by {
        assert(is_ascii_chars(ks[i]));
        assert(is_ascii_chars(ks[j]));
        assert(ks[i] != ks[j]) by {
            if ks[i] == ks[j] {
                assert(ks[i].len() == ks[j].len());
                assert(ks[i][0] == ks[j][0]);
                assert(ks[i][3] == ks[j][3]);
            }
        }
        lemma_name_bytes_injective(ks[i], ks[j]);
    }
}

proof fn lemma_chain_push(blocks: Seq<Seq<AttrView>>, x: Seq<AttrView>)
    ensures
        chain(blocks.push(x)) == chain(blocks) + x,
{
    assert(blocks.push(x).drop_last() =~= blocks);
    assert(blocks.push(x).last() == x);
}

proof fn lemma_assoc(a: Seq<AttrView>, b: Seq<AttrView>, c: Seq<AttrView>)
    ensures
        (a + b) + c == a + (b + c),
{
    assert((a + b) + c =~= a + (b + c));
}

proof fn lemma_track_blocks(t: ExportTrack)
    ensures
        track_blocks(t).len() == 15,
        chain(track_blocks(t)) == track_attrs(t),
{
    reveal(track_attrs);
    let p0 = seq![attr_v("TrackID"@, int_display(t.track_id as int))];
    let p1 = text_attr("Name"@, opt_view(t.title));
    let a1 = text_attr("Artist"@, opt_view(t.artist));
    let a2 = text_attr("Composer"@, opt_view(t.composer));
    let a3 = text_attr("Album"@, opt_view(t.album));
    let a4 = text_attr("Genre"@, opt_view(t.genre));
    let a5 = text_attr("Comments"@, opt_view(t.comment));
    let a6 = text_attr("Tonality"@, opt_view(t.key));
    let b1 = some_attr("AverageBpm"@, opt_view(t.bpm));
    let b2 = some_attr("TotalTime"@, opt_view(t.total_time));
    let b3 = int_attr("Year"@, t.year);
    let b4 = int_attr("TrackNumber"@, t.track_number);
    let b5 = rating_attr(t.rating);
    let b6 = colour_attr(opt_view(t.color));
    let loc = location_attr(opt_view(t.path));
    let s0 = Seq::<Seq<AttrView>>::empty();
    let s1 = s0.push(p0);
    let s2 = s1.push(p1);
    let s3 = s2.push(a1);
    let s4 = s3.push(a2);
    let s5 = s4.push(a3);
    let s6 = s5.push(a4);
    let s7 = s6.push(a5);
    let s8 = s7.push(a6);
    let s9 = s8.push(b1);
    let s10 = s9.push(b2);
    let s11 = s10.push(b3);
    let s12 = s11.push(b4);
    let s13 = s12.push(b5);
    let s14 = s13.push(b6);
    let s15 = s14.push(loc);
    lemma_chain_push(s0, p0);
    assert(Seq::<AttrView>::empty() + p0 =~= p0);
    lemma_chain_push(s1, p1);
    lemma_chain_push(s2, a1);
    lemma_chain_push(s3, a2);
    lemma_chain_push(s4, a3);
    lemma_chain_push(s5, a4);
    lemma_chain_push(s6, a5);
    lemma_chain_push(s7, a6);
    let tt = track_text_attrs(t);
    assert(chain(s8) == tt);
    lemma_chain_push(s8, b1);
    lemma_chain_push(s9, b2);
    lemma_assoc(tt, b1, b2);
    lemma_chain_push(s10, b3);
    lemma_assoc(tt, b1 + b2, b3);
    lemma_chain_push(s11, b4);
    lemma_assoc(tt, b1 + b2 + b3, b4);
    lemma_chain_push(s12, b5);
    lemma_assoc(tt, b1 + b2 + b3 + b4, b5);
    lemma_chain_push(s13, b6);
    lemma_assoc(tt, b1 + b2 + b3 + b4 + b5, b6);
    lemma_chain_push(s14, loc);
    lemma_assoc(tt, b1 + b2 + b3 + b4 + b5 + b6, loc);
    assert(chain(s15) == tt + track_number_attrs(t));
}

proof fn lemma_track_blocks_called(t: ExportTrack)
    ensures
        forall|i: int| 0 <= i < 15 ==> all_called(#[trigger] track_blocks(t)[i], track_keys()[i]),
{
    let b = track_blocks(t);
    let k = track_keys();
    assert(all_called(b[0], k[0]));
    assert(all_called(b[1], k[1]));
    assert(all_called(b[2], k[2]));
    assert(all_called(b[3], k[3]));
    assert(all_called(b[4], k[4]));
    assert(all_called(b[5], k[5]));
    assert(all_called(b[6], k[6]));
    assert(all_called(b[7], k[7]));
    assert(all_called(b[8], k[8]));
    assert(all_called(b[9], k[9]));
    assert(all_called(b[10], k[10]));
    assert(all_called(b[11], k[11]));
    assert(all_called(b[12], k[12]));
    assert(all_called(b[13], k[13]));
    assert(all_called(b[14], k[14]));
}

/// What the reader finds under the `j`th name of a written track is what the
/// writer put in that name's block.
proof fn lemma_track_attr(t: ExportTrack, j: int)
    requires
        0 <= j < 15,
    ensures
        attr_spec(track_attrs(t), name_bytes(track_keys()[j])) == attr_spec(track_blocks(t)[j], name_bytes(track_keys()[j])),
{
    lemma_track_blocks(t);
    lemma_track_blocks_called(t);
    lemma_track_keys_distinct(j);
    lemma_chain_pick(track_blocks(t), track_keys(), j);
}

/// An optional integer, with zero read as absent.
pub open spec fn nonzero(o: Option<i32>) -> Option<int> {
    match o {
        Some(n) => if n == 0 { None } else { Some(n as int) },
        None => None,
    }
}

proof fn lemma_text_block(k: Seq<char>, v: Option<Seq<char>>)
    ensures
        present(attr_spec(text_attr(k, v), name_bytes(k))) == present(v),
{
    if let Some(s) = v {
        if s.len() > 0 {
            assert(text_attr(k, v)[0].key == name_bytes(k));
        }
    }
}

proof fn lemma_some_block(k: Seq<char>, v: Option<Seq<char>>)
    ensures
        attr_spec(some_attr(k, v), name_bytes(k)) == v,
{
    if v is Some {
        assert(some_attr(k, v)[0].key == name_bytes(k));
    }
}

proof fn lemma_int_block(k: Seq<char>, v: Option<i32>)
    ensures
        as_i32(attr_spec(int_attr(k, v), name_bytes(k)), true) == nonzero(v),
{
    if let Some(n) = v {
        assert(int_attr(k, v)[0].key == name_bytes(k));
        lemma_display_parses(n as int);
    }
}

proof fn lemma_hex_upper_digit(n: u8)
    requires
        n < 16,
    ensures
        hex_digit(hex_upper(n)) == Some(n),
        hex_upper(n) != '+',
        !is_ws(hex_upper(n)),
{
    if n < 10 {
        assert((((n as u32) + 0x30) as char) as u32 == (n as u32) + 0x30);
    } else {
        assert((((n as u32) + 0x37) as char) as u32 == (n as u32) + 0x37);
    }
}

proof fn lemma_hex_byte(x: u8)
    ensures
        hex_pair(hex_upper(x / 16), hex_upper(x % 16)) == Some(x),
        !is_ws(hex_upper(x % 16)),
{
    lemma_hex_upper_digit(x / 16);
    lemma_hex_upper_digit(x % 16);
    assert(((x / 16) * 16 + x % 16) as u8 == x);
}

/// The `0xRRGGBB` the writer makes of a colour reads back as that colour.
proof fn lemma_colour_text_reads_back(r: u8, g: u8, b: u8)
    ensures
        hex_rgb(colour_text(r, g, b)) == Some((r, g, b)),
{
    let c = colour_text(r, g, b);
    lemma_hex_byte(r);
    lemma_hex_byte(g);
    lemma_hex_byte(b);
    assert(!is_ws(c[0]));
    assert(!is_ws(c.last()));
    assert(trim_start(c) == c);
    assert(trim_end(c) == c);
    assert(hex_body(c) =~= c.subrange(2, 8));
}

/// A palette token's canonical colour maps back to the token.
proof fn lemma_token_colour_back(c: Seq<char>)
    ensures
        token_rgb(c) matches Some((r, g, b)) ==> rgb_token(r, g, b) == Some(c),
{
    reveal_strlit("red");
    reveal_strlit("orange");
    reveal_strlit("yellow");
    reveal_strlit("green");
    reveal_strlit("aqua");
    reveal_strlit("blue");
    reveal_strlit("purple");
    reveal_strlit("pink");
    if c == "red"@ {
        lemma_palette_round_trip(0);
    } else if c == "orange"@ {
        lemma_palette_round_trip(1);
    } else if c == "yellow"@ {
        lemma_palette_round_trip(2);
    } else if c == "green"@ {
        lemma_palette_round_trip(3);
    } else if c == "aqua"@ {
        lemma_palette_round_trip(4);
    } else if c == "blue"@ {
        lemma_palette_round_trip(5);
    } else if c == "purple"@ {
        lemma_palette_round_trip(6);
    } else if c == "pink"@ {
        lemma_palette_round_trip(7);
    }
}

/// The stars a rating is written with.
pub open spec fn stars(rating: Option<i32>) -> Option<int> {
    match rating {
        Some(s) => Some(if s < 0 { 0 } else if s > 5 { 5 } else { s as int }),
        None => None,
    }
}

/// The colour a track is written with: its token, when it is a palette token.
pub open spec fn palette_colour(color: Option<Seq<char>>) -> Option<Seq<char>> {
    match color {
        Some(c) => if token_rgb(c) is Some { Some(c) } else { None },
        None => None,
    }
}

proof fn lemma_rating_block(rating: Option<i32>)
    ensures
        rating_spec(as_i64(attr_spec(rating_attr(rating), name_bytes("Rating"@)))) == stars(rating),
{
    if let Some(s) = rating {
        assert(rating_attr(rating)[0].key == name_bytes("Rating"@));
        let k: int = if s < 0 { 0 } else if s > 5 { 5 } else { s as int };
        assert(rating_value(s) == k * 51);
        crate::num::lemma_display_parses_nat((k * 51) as nat);
        assert((k * 51) / 51 == k) by (nonlinear_arith)
            requires
                0 <= k <= 5,
        ;
    }
}

proof fn lemma_colour_block(color: Option<Seq<char>>)
    ensures
        colour_spec(attr_spec(colour_attr(color), name_bytes("Colour"@))) == palette_colour(color),
{
    if let Some(c) = color {
        if let Some((r, g, b)) = token_rgb(c) {
            assert(colour_attr(color)[0].key == name_bytes("Colour"@));
            lemma_colour_text_reads_back(r, g, b);
            lemma_token_colour_back(c);
        }
    }
}

/// Reading the fields of a written track gives them back: its `TrackID`;
/// its title, artist, composer, album, genre, comment and key when not
/// empty; its tempo and length text as written; its year and track number
/// when not zero; its rating, in stars clamped to 0 to 5; its colour, when it
/// is a palette token; and its absolute path.
#[verifier::rlimit(50)]
pub proof fn lemma_track_fields_round_trip(t: ExportTrack)
    ensures
        as_i64(tag_attr(track_raw(t).tag, "TrackID"@)) == Some(t.track_id as int),
        present(tag_attr(track_raw(t).tag, "Name"@)) == present(opt_view(t.title)),
        present(tag_attr(track_raw(t).tag, "Artist"@)) == present(opt_view(t.artist)),
        present(tag_attr(track_raw(t).tag, "Composer"@)) == present(opt_view(t.composer)),
        present(tag_attr(track_raw(t).tag, "Album"@)) == present(opt_view(t.album)),
        present(tag_attr(track_raw(t).tag, "Genre"@)) == present(opt_view(t.genre)),
        present(tag_attr(track_raw(t).tag, "Comments"@)) == present(opt_view(t.comment)),
        present(tag_attr(track_raw(t).tag, "Tonality"@)) == present(opt_view(t.key)),
        tag_attr(track_raw(t).tag, "AverageBpm"@) == opt_view(t.bpm),
        tag_attr(track_raw(t).tag, "TotalTime"@) == opt_view(t.total_time),
        as_i32(tag_attr(track_raw(t).tag, "Year"@), true) == nonzero(t.year),
        as_i32(tag_attr(track_raw(t).tag, "TrackNumber"@), true) == nonzero(t.track_number),
        rating_spec(as_i64(tag_attr(track_raw(t).tag, "Rating"@))) == stars(t.rating),
        colour_spec(tag_attr(track_raw(t).tag, "Colour"@)) == palette_colour(opt_view(t.color)),
        (t.path matches Some(p) && p@.len() > 0 && p@[0] == '/') ==> location_path(
            tag_attr(track_raw(t).tag, "Location"@),
        ) == Some(t.path.unwrap()@),
{
    let k = track_keys();
    lemma_track_attr(t, 0);
    crate::num::lemma_display_parses(t.track_id as int);
    assert(seq![attr_v("TrackID"@, int_display(t.track_id as int))][0].key == name_bytes("TrackID"@));
    lemma_track_attr(t, 1);
    lemma_text_block("Name"@, opt_view(t.title));
    lemma_track_attr(t, 2);
    lemma_text_block("Artist"@, opt_view(t.artist));
    lemma_track_attr(t, 3);
    lemma_text_block("Composer"@, opt_view(t.composer));
    lemma_track_attr(t, 4);
    lemma_text_block("Album"@, opt_view(t.album));
    lemma_track_attr(t, 5);
    lemma_text_block("Genre"@, opt_view(t.genre));
    lemma_track_attr(t, 6);
    lemma_text_block("Comments"@, opt_view(t.comment));
    lemma_track_attr(t, 7);
    lemma_text_block("Tonality"@, opt_view(t.key));
    lemma_track_attr(t, 8);
    lemma_some_block("AverageBpm"@, opt_view(t.bpm));
    lemma_track_attr(t, 9);
    lemma_some_block("TotalTime"@, opt_view(t.total_time));
    lemma_track_attr(t, 10);
    lemma_int_block("Year"@, t.year);
    lemma_track_attr(t, 11);
    lemma_int_block("TrackNumber"@, t.track_number);
    lemma_track_attr(t, 12);
    lemma_rating_block(t.rating);
    lemma_track_attr(t, 13);
    lemma_colour_block(opt_view(t.color));
    lemma_track_attr(t, 14);
    if let Some(p) = t.path {
        if p@.len() > 0 && p@[0] == '/' {
            lemma_file_url_round_trip(p@);
            assert(location_attr(opt_view(t.path))[0].key == name_bytes("Location"@));
        }
    }
}

/// The attribute names of a `<POSITION_MARK>`, in the order written.
pub open spec fn mark_keys() -> Seq<Seq<char>> {
    seq!["Name"@, "Type"@, "Start"@, "End"@, "Num"@, "Red"@, "Green"@, "Blue"@]
}

/// One channel (`0` red, `1` green, `2` blue) of a written `#RRGGBB` colour.
pub open spec fn channel_attr(color: Option<Seq<char>>, k: int) -> Seq<AttrView> {
    match color {
        Some(c) => match hash_rgb(c) {
            Some((r, g, b)) => seq![
                attr_v(mark_keys()[5 + k], int_display(if k == 0 { r as int } else if k == 1 { g as int } else { b as int })),
            ],
            None => Seq::empty(),
        },
        None => Seq::empty(),
    }
}

/// The attribute blocks of a written mark, one per name of `mark_keys`.
pub open spec fn mark_blocks(
    name: Option<Seq<char>>,
    mark_type: Seq<char>,
    start: Seq<char>,
    end: Option<Seq<char>>,
    hotcue: Option<u8>,
    color: Option<Seq<char>>,
) -> Seq<Seq<AttrView>> {
    Seq::empty()
        .push(seq![attr_v("Name"@, name_or_empty(name))])
        .push(seq![attr_v("Type"@, mark_type)])
        .push(seq![attr_v("Start"@, start)])
        .push(
            match end {
                Some(e) => seq![attr_v("End"@, e)],
                None => Seq::empty(),
            },
        )
        .push(seq![num_attr(hotcue)])
        .push(channel_attr(color, 0))
        .push(channel_attr(color, 1))
        .push(channel_attr(color, 2))
}

proof fn lemma_mark_keys_distinct(j: int)
    requires
        0 <= j < 8,
    ensures
        forall|i: int| 0 <= i < 8 && i != j ==> name_bytes(#[trigger] mark_keys()[i]) != name_bytes(mark_keys()[j]),
{
    reveal_strlit("Name");
    reveal_strlit("Type");
    reveal_strlit("Start");
    reveal_strlit("End");
    reveal_strlit("Num");
    reveal_strlit("Red");
    reveal_strlit("Green");
    reveal_strlit("Blue");
    let ks = mark_keys();
    assert forall|i: int| 0 <= i < 8 && i != j implies name_bytes(#[trigger] ks[i]) != name_bytes(ks[j]) by {
        assert(is_ascii_chars(ks[i]));
        assert(is_ascii_chars(ks[j]));
        assert(ks[i] != ks[j]) by {
            if ks[i] == ks[j] {
                assert(ks[i].len() == ks[j].len());
                assert(ks[i][0] == ks[j][0]);
            }
        }
        lemma_name_bytes_injective(ks[i], ks[j]);
    }
}

proof fn lemma_mark_blocks_called(
    name: Option<Seq<char>>,
    mark_type: Seq<char>,
    start: Seq<char>,
    end: Option<Seq<char>>,
    hotcue: Option<u8>,
    color: Option<Seq<char>>,
)
    ensures
        forall|i: int| 0 <= i < 8 ==> all_called(#[trigger] mark_blocks(name, mark_type, start, end, hotcue, color)[i], mark_keys()[i]),
        mark_blocks(name, mark_type, start, end, hotcue, color).len() == 8,
{
    let b = mark_blocks(name, mark_type, start, end, hotcue, color);
    let k = mark_keys();
    assert(all_called(b[0], k[0]));
    assert(all_called(b[1], k[1]));
    assert(all_called(b[2], k[2]));
    assert(all_called(b[3], k[3]));
    assert(all_called(b[4], k[4]));
    assert(all_called(b[5], k[5]));
    assert(all_called(b[6], k[6]));
    assert(all_called(b[7], k[7]));
}

proof fn lemma_rgb_channels(color: Option<Seq<char>>)
    ensures
        rgb_attrs(color) == channel_attr(color, 0) + channel_attr(color, 1) + channel_attr(color, 2),
{
    reveal_strlit("Red");
    reveal_strlit("Green");
    reveal_strlit("Blue");
    assert(rgb_attrs(color) =~= channel_attr(color, 0) + channel_attr(color, 1) + channel_attr(color, 2));
}

proof fn lemma_mark_chain(
    name: Option<Seq<char>>,
    mark_type: Seq<char>,
    start: Seq<char>,
    end: Option<Seq<char>>,
    hotcue: Option<u8>,
    color: Option<Seq<char>>,
    head: Seq<AttrView>,
)
    requires
        head == seq![attr_v("Name"@, name_or_empty(name)), attr_v("Type"@, mark_type), attr_v("Start"@, start)] + (match end {
            Some(e) => seq![attr_v("End"@, e)],
            None => Seq::<AttrView>::empty(),
        }) + seq![num_attr(hotcue)],
    ensures
        chain(mark_blocks(name, mark_type, start, end, hotcue, color)) == head + rgb_attrs(color),
{
    let e = match end {
        Some(e) => seq![attr_v("End"@, e)],
        None => Seq::<AttrView>::empty(),
    };
    let b0 = seq![attr_v("Name"@, name_or_empty(name))];
    let b1 = seq![attr_v("Type"@, mark_type)];
    let b2 = seq![attr_v("Start"@, start)];
    let b4 = seq![num_attr(hotcue)];
    let r = channel_attr(color, 0);
    let g = channel_attr(color, 1);
    let bl = channel_attr(color, 2);
    let s0 = Seq::<Seq<AttrView>>::empty();
    let s1 = s0.push(b0);
    let s2 = s1.push(b1);
    let s3 = s2.push(b2);
    let s4 = s3.push(e);
    let s5 = s4.push(b4);
    let s6 = s5.push(r);
    let s7 = s6.push(g);
    let s8 = s7.push(bl);
    lemma_chain_push(s0, b0);
    lemma_chain_push(s1, b1);
    lemma_chain_push(s2, b2);
    lemma_chain_push(s3, e);
    lemma_chain_push(s4, b4);
    assert(chain(s5) =~= head);
    lemma_chain_push(s5, r);
    lemma_chain_push(s6, g);
    lemma_chain_push(s7, bl);
    lemma_assoc(head, r, g);
    lemma_assoc(head, r + g, bl);
    lemma_rgb_channels(color);
}

/// The `#RRGGBB` the reader makes of a written colour.
pub open spec fn read_colour(color: Option<Seq<char>>) -> Option<Seq<char>> {
    match color {
        Some(c) => match hash_rgb(c) {
            Some((r, g, b)) => Some(color_text(r, g, b)),
            None => None,
        },
        None => None,
    }
}

proof fn lemma_mark_fields(
    name: Option<Seq<char>>,
    mark_type: Seq<char>,
    start: Seq<char>,
    end: Option<Seq<char>>,
    hotcue: Option<u8>,
    color: Option<Seq<char>>,
    t: TagView,
)
    requires
        chain(mark_blocks(name, mark_type, start, end, hotcue, color)) == t.attrs,
    ensures
        tag_attr(t, "Type"@) == Some(mark_type),
        tag_attr(t, "Start"@) == Some(start),
        tag_attr(t, "End"@) == end,
        hotcue_spec(as_i64(tag_attr(t, "Num"@))) == hotcue,
        present(tag_attr(t, "Name"@)) == present(name),
        mark_color_spec(t) == read_colour(color),
{
    let b = mark_blocks(name, mark_type, start, end, hotcue, color);
    let k = mark_keys();
    lemma_mark_blocks_called(name, mark_type, start, end, hotcue, color);
    lemma_mark_keys_distinct(0);
    lemma_chain_pick(b, k, 0);
    lemma_mark_keys_distinct(1);
    lemma_chain_pick(b, k, 1);
    lemma_mark_keys_distinct(2);
    lemma_chain_pick(b, k, 2);
    lemma_mark_keys_distinct(3);
    lemma_chain_pick(b, k, 3);
    lemma_mark_keys_distinct(4);
    lemma_chain_pick(b, k, 4);
    lemma_mark_keys_distinct(5);
    lemma_chain_pick(b, k, 5);
    lemma_mark_keys_distinct(6);
    lemma_chain_pick(b, k, 6);
    lemma_mark_keys_distinct(7);
    lemma_chain_pick(b, k, 7);
    match hotcue {
        Some(n) => crate::num::lemma_display_parses_nat(n as nat),
        None => crate::num::lemma_display_parses(-1),
    }
    if let Some(c) = color {
        if let Some((r, g, bb)) = hash_rgb(c) {
            crate::num::lemma_display_parses_nat(r as nat);
            crate::num::lemma_display_parses_nat(g as nat);
            crate::num::lemma_display_parses_nat(bb as nat);
        }
    }
}

/// Reading a written cue gives it back: a cue (not a loop) on the same pad
/// slot (or none, for a memory cue), with its name when not empty, its start
/// text as written, and its colour as upper-case `#RRGGBB`.
pub proof fn lemma_cue_round_trip(c: ExportCue)
    ensures
        mark_kind_spec(as_i64(tag_attr(cue_tag(c), "Type"@))) == MarkKind::Cue,
        hotcue_spec(as_i64(tag_attr(cue_tag(c), "Num"@))) == c.hotcue,
        present(tag_attr(cue_tag(c), "Name"@)) == present(opt_view(c.name)),
        tag_attr(cue_tag(c), "Start"@) == Some(c.position@),
        mark_color_spec(cue_tag(c)) == read_colour(opt_view(c.color)),
{
    reveal_strlit("0");
    let head = seq![attr_v("Name"@, name_or_empty(opt_view(c.name))), attr_v("Type"@, "0"@), attr_v("Start"@, c.position@), num_attr(c.hotcue)];
    assert(head =~= seq![attr_v("Name"@, name_or_empty(opt_view(c.name))), attr_v("Type"@, "0"@), attr_v("Start"@, c.position@)] + Seq::<AttrView>::empty() + seq![num_attr(c.hotcue)]);
    lemma_mark_chain(opt_view(c.name), "0"@, c.position@, None, c.hotcue, opt_view(c.color), head);
    lemma_mark_fields(opt_view(c.name), "0"@, c.position@, None, c.hotcue, opt_view(c.color), cue_tag(c));
    crate::num::lemma_display_parses_nat(0);
    assert("0"@ =~= int_display(0));
}

/// Reading a written loop gives it back: a loop on the same pad slot (or
/// none), with its name when not empty, its start and end text as written,
/// and its colour as upper-case `#RRGGBB`.
pub proof fn lemma_loop_round_trip(l: ExportLoop)
    ensures
        mark_kind_spec(as_i64(tag_attr(loop_tag(l), "Type"@))) == MarkKind::Loop,
        hotcue_spec(as_i64(tag_attr(loop_tag(l), "Num"@))) == l.hotcue,
        present(tag_attr(loop_tag(l), "Name"@)) == present(opt_view(l.name)),
        tag_attr(loop_tag(l), "Start"@) == Some(l.start@),
        tag_attr(loop_tag(l), "End"@) == Some(l.end@),
        mark_color_spec(loop_tag(l)) == read_colour(opt_view(l.color)),
{
    reveal_strlit("4");
    let head = seq![
        attr_v("Name"@, name_or_empty(opt_view(l.name))),
        attr_v("Type"@, "4"@),
        attr_v("Start"@, l.start@),
        attr_v("End"@, l.end@),
        num_attr(l.hotcue),
    ];
    assert(head =~= seq![attr_v("Name"@, name_or_empty(opt_view(l.name))), attr_v("Type"@, "4"@), attr_v("Start"@, l.start@)] + seq![attr_v("End"@, l.end@)] + seq![num_attr(l.hotcue)]);
    lemma_mark_chain(opt_view(l.name), "4"@, l.start@, Some(l.end@), l.hotcue, opt_view(l.color), head);
    lemma_mark_fields(opt_view(l.name), "4"@, l.start@, Some(l.end@), l.hotcue, opt_view(l.color), loop_tag(l));
    crate::num::lemma_display_parses_nat(4);
    assert("4"@ =~= int_display(4));
}

/// The attribute names of a `<TEMPO>`, in the order written.
pub open spec fn tempo_keys() -> Seq<Seq<char>> {
    seq!["Inizio"@, "Bpm"@, "Metro"@, "Battito"@]
}

proof fn lemma_tempo_keys_distinct(j: int)
    requires
        0 <= j < 4,
    ensures
        forall|i: int| 0 <= i < 4 && i != j ==> name_bytes(#[trigger] tempo_keys()[i]) != name_bytes(tempo_keys()[j]),
{
    reveal_strlit("Inizio");
    reveal_strlit("Bpm");
    reveal_strlit("Metro");
    reveal_strlit("Battito");
    let ks = tempo_keys();
    assert forall|i: int| 0 <= i < 4 && i != j implies name_bytes(#[trigger] ks[i]) != name_bytes(ks[j]) by {
        assert(is_ascii_chars(ks[i]));
        assert(is_ascii_chars(ks[j]));
        assert(ks[i].len() != ks[j].len());
        lemma_name_bytes_injective(ks[i], ks[j]);
    }
}

/// Reading a written grid gives it back: when a track has both a grid
/// anchor and a grid tempo, one `<TEMPO>` is written, whose anchor and tempo
/// read back as written and whose bar phase reads back clamped to a bar of
/// four beats; otherwise none is written.
pub proof fn lemma_tempo_round_trip(t: ExportTrack)
    ensures
        (t.grid_bpm is None || t.grid_anchor is None) ==> tempo_tags(t).len() == 0,
        (t.grid_bpm is Some && t.grid_anchor is Some) ==> {
            &&& tempo_tags(t).len() == 1
            &&& tag_attr(tempo_tags(t)[0], "Inizio"@) == Some(t.grid_anchor.unwrap()@)
            &&& tag_attr(tempo_tags(t)[0], "Bpm"@) == Some(t.grid_bpm.unwrap()@)
            &&& bar_phase_spec(as_i64(tag_attr(tempo_tags(t)[0], "Battito"@))) == (if t.grid_bar_phase < 3 {
                t.grid_bar_phase
            } else {
                3u8
            })
        },
{
    if let (Some(b), Some(a)) = (t.grid_bpm, t.grid_anchor) {
        let phase: int = if t.grid_bar_phase < 3 { t.grid_bar_phase as int } else { 3 };
        let x0 = seq![attr_v("Inizio"@, a@)];
        let x1 = seq![attr_v("Bpm"@, b@)];
        let x2 = seq![attr_v("Metro"@, "4/4"@)];
        let x3 = seq![attr_v("Battito"@, int_display(phase + 1))];
        let s0 = Seq::<Seq<AttrView>>::empty();
        let blocks = s0.push(x0).push(x1).push(x2).push(x3);
        lemma_chain_push(s0, x0);
        lemma_chain_push(s0.push(x0), x1);
        lemma_chain_push(s0.push(x0).push(x1), x2);
        lemma_chain_push(s0.push(x0).push(x1).push(x2), x3);
        let tag = tempo_tags(t)[0];
        assert(chain(blocks) =~= tag.attrs);
        let k = tempo_keys();
        assert(forall|i: int| 0 <= i < 4 ==> all_called(#[trigger] blocks[i], k[i])) by {
            assert(all_called(blocks[0], k[0]));
            assert(all_called(blocks[1], k[1]));
            assert(all_called(blocks[2], k[2]));
            assert(all_called(blocks[3], k[3]));
        }
        lemma_tempo_keys_distinct(0);
        lemma_chain_pick(blocks, k, 0);
        lemma_tempo_keys_distinct(1);
        lemma_chain_pick(blocks, k, 1);
        lemma_tempo_keys_distinct(3);
        lemma_chain_pick(blocks, k, 3);
        crate::num::lemma_display_parses_nat((phase + 1) as nat);
    }
}

} // verus!
