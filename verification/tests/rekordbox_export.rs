use dub_library::rekordbox::{bar_phase, mark_fields, parse_events, track_fields, MarkKind, ParsedPlaylist};
use dub_library::rekordbox_export::{
    parse_hex_rgb, write_document, write_playlists, write_track, ExportCue, ExportError, ExportLoop,
    ExportTrack,
};
use dub_library::xml::{attr, XmlEvent, XmlTag};

fn track(id: i64, title: &str) -> ExportTrack {
    ExportTrack {
        track_id: id,
        path: Some(format!("/Users/dj/{title}.flac")),
        title: Some(title.to_string()),
        artist: None,
        composer: None,
        album: None,
        genre: None,
        comment: None,
        key: None,
        bpm: None,
        total_time: None,
        year: None,
        track_number: None,
        rating: None,
        color: None,
        grid_anchor: None,
        grid_bpm: None,
        grid_bar_phase: 0,
        cues: Vec::new(),
        loops: Vec::new(),
    }
}

fn playlist(name: &str, parent: Option<usize>, ids: &[i64]) -> ParsedPlaylist {
    ParsedPlaylist { name: name.to_string(), parent, track_ids: ids.to_vec() }
}

fn start_tag(e: &XmlEvent) -> &XmlTag {
    match e {
        XmlEvent::Start(t) | XmlEvent::Empty(t) => t,
        other => panic!("expected a tag, got {other:?}"),
    }
}

#[test]
fn a_plain_track_is_one_self_closing_element() {
    let mut out = Vec::new();
    write_track(&track(1, "Real Rock"), &mut out);
    assert_eq!(out.len(), 1);
    let XmlEvent::Empty(t) = &out[0] else { panic!("not self-closing") };
    assert_eq!(t.name, b"TRACK");
    assert_eq!(attr(t, "TrackID").as_deref(), Some("1"));
    assert_eq!(attr(t, "Name").as_deref(), Some("Real Rock"));
    assert_eq!(attr(t, "Location").as_deref(), Some("file://localhost/Users/dj/Real%20Rock.flac"));
    assert_eq!(attr(t, "Artist"), None);
}

#[test]
fn empty_text_fields_are_not_written() {
    let mut t = track(2, "X");
    t.artist = Some(String::new());
    let mut out = Vec::new();
    write_track(&t, &mut out);
    assert_eq!(attr(start_tag(&out[0]), "Artist"), None);
}

#[test]
fn grid_cues_and_loops_are_children() {
    let mut t = track(3, "Banger");
    t.grid_anchor = Some("0.025".into());
    t.grid_bpm = Some("128.00".into());
    t.grid_bar_phase = 2;
    t.rating = Some(9);
    t.color = Some("red".into());
    t.year = Some(2020);
    t.cues.push(ExportCue { hotcue: Some(1), position: "32.000".into(), name: Some("Drop".into()), color: Some("#28E214".into()) });
    t.cues.push(ExportCue { hotcue: None, position: "0.025".into(), name: None, color: None });
    t.loops.push(ExportLoop { hotcue: Some(0), start: "64.000".into(), end: "68.000".into(), name: Some("Roll".into()), color: None });
    let mut out = Vec::new();
    write_track(&t, &mut out);
    assert_eq!(out.len(), 6);
    let el = start_tag(&out[0]);
    assert!(matches!(out[0], XmlEvent::Start(_)));
    assert_eq!(attr(el, "Rating").as_deref(), Some("255"));
    assert_eq!(attr(el, "Colour").as_deref(), Some("0xFF0000"));
    assert_eq!(attr(el, "Year").as_deref(), Some("2020"));
    let tempo = start_tag(&out[1]);
    assert_eq!(tempo.name, b"TEMPO");
    assert_eq!(attr(tempo, "Battito").as_deref(), Some("3"));
    assert_eq!(attr(tempo, "Metro").as_deref(), Some("4/4"));
    let drop = start_tag(&out[2]);
    assert_eq!(attr(drop, "Num").as_deref(), Some("1"));
    assert_eq!(attr(drop, "Red").as_deref(), Some("40"));
    assert_eq!(attr(drop, "Green").as_deref(), Some("226"));
    assert_eq!(attr(drop, "Blue").as_deref(), Some("20"));
    let memory = start_tag(&out[3]);
    assert_eq!(attr(memory, "Num").as_deref(), Some("-1"));
    assert_eq!(attr(memory, "Name").as_deref(), Some(""));
    let lp = start_tag(&out[4]);
    assert_eq!(attr(lp, "Type").as_deref(), Some("4"));
    assert_eq!(attr(lp, "End").as_deref(), Some("68.000"));
    assert!(matches!(&out[5], XmlEvent::End(n) if n == b"TRACK"));
}

#[test]
fn hex_colours_read_with_or_without_hash() {
    assert_eq!(parse_hex_rgb("#28E214"), Some((0x28, 0xE2, 0x14)));
    assert_eq!(parse_hex_rgb(" 28e214 "), Some((0x28, 0xE2, 0x14)));
    assert_eq!(parse_hex_rgb("#+F+F+F"), Some((15, 15, 15)));
    assert_eq!(parse_hex_rgb("#12345"), None);
    assert_eq!(parse_hex_rgb("#GG0000"), None);
    assert_eq!(parse_hex_rgb("0x112233"), None);
}

#[test]
fn the_tree_is_written_under_root_with_children_after_parents() {
    let pls = vec![
        playlist("Sets", None, &[]),
        playlist("Friday", Some(0), &[100, 200]),
        playlist("Loose", None, &[]),
    ];
    let mut out = Vec::new();
    write_playlists(&pls, &mut out);
    let root = start_tag(&out[1]);
    assert_eq!(attr(root, "Name").as_deref(), Some("ROOT"));
    assert_eq!(attr(root, "Count").as_deref(), Some("2"));
    let sets = start_tag(&out[2]);
    assert_eq!(attr(sets, "Name").as_deref(), Some("Sets"));
    assert_eq!(attr(sets, "Type").as_deref(), Some("0"));
    assert_eq!(attr(sets, "Count").as_deref(), Some("1"));
    let friday = start_tag(&out[3]);
    assert_eq!(attr(friday, "Type").as_deref(), Some("1"));
    assert_eq!(attr(friday, "Entries").as_deref(), Some("2"));
    assert_eq!(attr(start_tag(&out[4]), "Key").as_deref(), Some("100"));
    assert_eq!(attr(start_tag(&out[5]), "Key").as_deref(), Some("200"));
    let loose = start_tag(&out[8]);
    assert_eq!(attr(loose, "Name").as_deref(), Some("Loose"));
    assert_eq!(attr(loose, "Type").as_deref(), Some("1"));
}

#[test]
fn what_is_written_reads_back() {
    let mut banger = track(2, "Banger");
    banger.artist = Some("DJ Test".into());
    banger.year = Some(2020);
    banger.key = Some("8B".into());
    banger.grid_anchor = Some("0.025".into());
    banger.grid_bpm = Some("128.00".into());
    let tracks = vec![track(1, "One Shot"), banger];
    let pls = vec![
        playlist("Sets", None, &[]),
        playlist("Friday", Some(0), &[1, 2]),
        playlist("Empty", None, &[]),
    ];
    let events = write_document(&tracks, &pls);
    let mut with_end = events.clone();
    with_end.push(XmlEvent::Eof);
    let doc = parse_events(&with_end).unwrap();
    assert_eq!(doc.tracks.len(), 2);
    let one = track_fields(&doc.tracks[0].tag);
    assert_eq!(one.track_id, 1);
    assert_eq!(one.title.as_deref(), Some("One Shot"));
    assert_eq!(one.path.as_deref(), Some("/Users/dj/One Shot.flac"));
    let two = track_fields(&doc.tracks[1].tag);
    assert_eq!(two.artist.as_deref(), Some("DJ Test"));
    assert_eq!(two.year, Some(2020));
    assert_eq!(two.key.as_deref(), Some("8B"));
    assert_eq!(doc.tracks[1].children.len(), 1);
    assert_eq!(doc.playlists.len(), 3);
    for (got, want) in doc.playlists.iter().zip(&pls) {
        assert_eq!(got.name, want.name);
        assert_eq!(got.parent, want.parent);
        assert_eq!(got.track_ids, want.track_ids);
    }
}

#[test]
fn export_errors_read_as_text() {
    assert_eq!(ExportError("disk full".into()).message(), "rekordbox export failed: disk full");
}

fn read_back(tracks: &[ExportTrack], pls: &[ParsedPlaylist]) -> dub_library::rekordbox::RekordboxDocument {
    let mut events = write_document(tracks, pls);
    events.push(XmlEvent::Eof);
    parse_events(&events).expect("read back")
}

#[test]
fn a_bare_collection_round_trips() {
    let tracks = vec![track(1, "Real Rock"), track(2, "Version")];
    let doc = read_back(&tracks, &[]);
    assert_eq!(doc.tracks.len(), 2);
    assert!(doc.playlists.is_empty());
    for (raw, want) in doc.tracks.iter().zip(&tracks) {
        let got = track_fields(&raw.tag);
        assert_eq!(got.track_id, want.track_id);
        assert_eq!(got.title, want.title);
        assert_eq!(got.path, want.path);
        assert!(raw.children.is_empty());
    }
}

#[test]
fn the_playlist_tree_round_trips() {
    let tracks = vec![track(1, "A"), track(2, "B")];
    let pls = vec![
        playlist("Reggae", None, &[]),
        playlist("Roots", Some(0), &[1, 2]),
        playlist("Loose", None, &[2]),
    ];
    let doc = read_back(&tracks, &pls);
    assert_eq!(doc.tracks.len(), 2);
    assert_eq!(doc.playlists.len(), pls.len());
    for (got, want) in doc.playlists.iter().zip(&pls) {
        assert_eq!(got.name, want.name);
        assert_eq!(got.parent, want.parent);
        assert_eq!(got.track_ids, want.track_ids);
    }
}

#[test]
fn unicode_paths_round_trip() {
    let mut t = track(1, "unicode");
    t.path = Some("/Users/dj/Café/ソウル･トレイン.flac".to_string());
    t.title = Some("ソウル･トレインのテーマ".to_string());
    let doc = read_back(&[t], &[]);
    let got = track_fields(&doc.tracks[0].tag);
    assert_eq!(got.path.as_deref(), Some("/Users/dj/Café/ソウル･トレイン.flac"));
    assert_eq!(got.title.as_deref(), Some("ソウル･トレインのテーマ"));
}

#[test]
fn absent_fields_stay_absent() {
    let mut t = track(1, "x");
    t.path = Some("/a.flac".to_string());
    t.title = None;
    let doc = read_back(&[t], &[]);
    let got = track_fields(&doc.tracks[0].tag);
    assert_eq!(got.track_id, 1);
    assert_eq!(got.path.as_deref(), Some("/a.flac"));
    assert_eq!(got.title, None);
    assert_eq!(got.artist, None);
    assert_eq!(got.year, None);
    assert_eq!(attr(&doc.tracks[0].tag, "AverageBpm"), None);
}

#[test]
fn nested_folders_read_back_in_order() {
    let pls = vec![
        playlist("Sets", None, &[]),
        playlist("2024", Some(0), &[]),
        playlist("Friday", Some(1), &[1]),
        playlist("Saturday", Some(1), &[2, 1]),
        playlist("Warmups", Some(0), &[2]),
        playlist("Loose", None, &[]),
    ];
    let doc = read_back(&[track(1, "A"), track(2, "B")], &pls);
    assert_eq!(doc.playlists.len(), pls.len());
    for (got, want) in doc.playlists.iter().zip(&pls) {
        assert_eq!(got.name, want.name);
        assert_eq!(got.parent, want.parent);
        assert_eq!(got.track_ids, want.track_ids);
    }
}

#[test]
fn every_metadata_field_round_trips() {
    let t = ExportTrack {
        track_id: 7,
        path: Some("/Users/dj/Music/Studio One.flac".to_string()),
        title: Some("Real Rock".into()),
        artist: Some("Sound Dimension".into()),
        composer: Some("Jackie Mittoo".into()),
        album: Some("Studio One Side A".into()),
        genre: Some("Reggae".into()),
        comment: Some("ripped from vinyl".into()),
        key: Some("8B".into()),
        bpm: Some("88.50".into()),
        total_time: Some("212".into()),
        year: Some(1967),
        track_number: Some(3),
        rating: Some(4),
        color: Some("orange".into()),
        grid_anchor: None,
        grid_bpm: None,
        grid_bar_phase: 0,
        cues: Vec::new(),
        loops: Vec::new(),
    };
    let doc = read_back(&[t.clone()], &[]);
    let raw = &doc.tracks[0];
    let got = track_fields(&raw.tag);
    assert_eq!(got.track_id, 7);
    assert_eq!(got.path, t.path);
    assert_eq!(got.title, t.title);
    assert_eq!(got.artist, t.artist);
    assert_eq!(got.composer, t.composer);
    assert_eq!(got.album, t.album);
    assert_eq!(got.genre, t.genre);
    assert_eq!(got.comment, t.comment);
    assert_eq!(got.key, t.key);
    assert_eq!(got.year, Some(1967));
    assert_eq!(got.track_number, Some(3));
    assert_eq!(got.rating, Some(4));
    assert_eq!(got.color.as_deref(), Some("orange"));
    assert_eq!(attr(&raw.tag, "AverageBpm").as_deref(), Some("88.50"));
    assert_eq!(attr(&raw.tag, "TotalTime").as_deref(), Some("212"));
}

#[test]
fn grid_cues_and_loops_round_trip() {
    let mut t = track(1, "Chase the Devil");
    t.bpm = Some("74.50".into());
    t.grid_bpm = Some("74.50".into());
    t.grid_anchor = Some("0.025".into());
    t.grid_bar_phase = 2;
    t.cues.push(ExportCue { hotcue: Some(0), position: "12.500".into(), name: Some("intro".into()), color: Some("#FF0000".into()) });
    t.cues.push(ExportCue { hotcue: None, position: "60.250".into(), name: None, color: None });
    t.loops.push(ExportLoop { hotcue: Some(3), start: "32.000".into(), end: "40.000".into(), name: Some("dub".into()), color: Some("#00FF00".into()) });
    let doc = read_back(&[t], &[]);
    let raw = &doc.tracks[0];
    assert_eq!(raw.children.len(), 4);
    let tempo = &raw.children[0];
    assert_eq!(tempo.name, b"TEMPO");
    assert_eq!(attr(tempo, "Inizio").as_deref(), Some("0.025"));
    assert_eq!(attr(tempo, "Bpm").as_deref(), Some("74.50"));
    assert_eq!(bar_phase(tempo), 2);
    let intro = mark_fields(&raw.children[1]);
    assert_eq!(intro.kind, MarkKind::Cue);
    assert_eq!(intro.hotcue, Some(0));
    assert_eq!(intro.name.as_deref(), Some("intro"));
    assert_eq!(intro.color.as_deref(), Some("#FF0000"));
    assert_eq!(attr(&raw.children[1], "Start").as_deref(), Some("12.500"));
    let memory = mark_fields(&raw.children[2]);
    assert_eq!(memory.kind, MarkKind::Cue);
    assert_eq!(memory.hotcue, None);
    assert_eq!(memory.name, None);
    assert_eq!(memory.color, None);
    let dub = mark_fields(&raw.children[3]);
    assert_eq!(dub.kind, MarkKind::Loop);
    assert_eq!(dub.hotcue, Some(3));
    assert_eq!(dub.name.as_deref(), Some("dub"));
    assert_eq!(dub.color.as_deref(), Some("#00FF00"));
    assert_eq!(attr(&raw.children[3], "End").as_deref(), Some("40.000"));
}

#[test]
fn the_document_declares_itself_as_dj_playlists() {
    let events = write_document(&[], &[]);
    let root = start_tag(&events[0]);
    assert!(matches!(events[0], XmlEvent::Start(_)));
    assert_eq!(root.name, b"DJ_PLAYLISTS");
    assert_eq!(attr(root, "Version").as_deref(), Some("1.0.0"));
    let product = start_tag(&events[1]);
    assert_eq!(product.name, b"PRODUCT");
    assert_eq!(attr(product, "Name").as_deref(), Some("Dub"));
    assert!(matches!(events.last(), Some(XmlEvent::End(n)) if n == b"DJ_PLAYLISTS"));
}
