use dub_library::rekordbox::{parse_bytes, 
    bar_phase, mark_fields, parse_color, parse_events, track_fields, MarkKind, ParseError,
    RekordboxDocument,
};
use dub_library::xml::{attr, XmlAttr, XmlEvent, XmlTag};

fn read(data: &[u8]) -> Result<RekordboxDocument, ParseError> {
    parse_bytes(data)
}

const SAMPLE: &[u8] = br#"<?xml version="1.0" encoding="UTF-8"?>
<DJ_PLAYLISTS Version="1.0.0">
  <PRODUCT Name="rekordbox" Version="7.2.14" Company="AlphaTheta"/>
  <COLLECTION Entries="2">
    <TRACK TrackID="100" Name="Oneshot" Artist="" Genre="" Kind="WAV File"
           TotalTime="5" AverageBpm="0.00"
           Location="file://localhost/Users/dj/Music/one%20shot.wav" Tonality=""/>
    <TRACK TrackID="200" Name="Banger" Artist="DJ Test" Album="LP" Genre="House"
           Composer="Writer" Comments="hi" Year="2020" TrackNumber="3"
           TotalTime="180" AverageBpm="128.00"
           Location="file://localhost/Users/dj/Music/banger.mp3" Tonality="8B">
      <TEMPO Inizio="0.025" Bpm="128.00" Metro="4/4" Battito="3"/>
      <TEMPO Inizio="48.026" Bpm="128.00" Metro="4/4" Battito="1"/>
      <POSITION_MARK Name="Intro" Type="0" Start="0.025" Num="-1"/>
      <POSITION_MARK Name="Drop" Type="0" Start="32.0" Num="1" Red="40" Green="226" Blue="20"/>
      <POSITION_MARK Name="Roll" Type="4" Start="64.0" End="68.0" Num="0"/>
      <POSITION_MARK Name="FadeOut" Type="2" Start="170.0" Num="-1"/>
    </TRACK>
  </COLLECTION>
  <PLAYLISTS>
    <NODE Type="0" Name="ROOT" Count="1">
      <NODE Type="0" Name="Sets" Count="1">
        <NODE Name="Friday" Type="1" KeyType="0" Entries="2">
          <TRACK Key="100"/>
          <TRACK Key="200"/>
        </NODE>
      </NODE>
    </NODE>
  </PLAYLISTS>
</DJ_PLAYLISTS>"#;

#[test]
fn parses_tracks_grid_cues_loops() {
    let lib = read(SAMPLE).unwrap();
    assert_eq!(lib.tracks.len(), 2);

    let one = track_fields(&lib.tracks[0].tag);
    assert_eq!(one.track_id, 100);
    assert_eq!(one.title.as_deref(), Some("Oneshot"));
    assert_eq!(one.artist, None);
    assert_eq!(one.key, None);
    assert_eq!(one.path.as_deref(), Some("/Users/dj/Music/one shot.wav"));
    assert!(lib.tracks[0].children.is_empty());

    let two = track_fields(&lib.tracks[1].tag);
    assert_eq!(two.track_id, 200);
    assert_eq!(two.artist.as_deref(), Some("DJ Test"));
    assert_eq!(two.album.as_deref(), Some("LP"));
    assert_eq!(two.genre.as_deref(), Some("House"));
    assert_eq!(two.composer.as_deref(), Some("Writer"));
    assert_eq!(two.comment.as_deref(), Some("hi"));
    assert_eq!(two.year, Some(2020));
    assert_eq!(two.track_number, Some(3));
    assert_eq!(two.key.as_deref(), Some("8B"));
    assert_eq!(attr(&lib.tracks[1].tag, "AverageBpm").as_deref(), Some("128.00"));

    let children = &lib.tracks[1].children;
    assert_eq!(children.len(), 6);
    assert_eq!(children[0].name, b"TEMPO");
    assert_eq!(bar_phase(&children[0]), 2);
    assert_eq!(attr(&children[0], "Inizio").as_deref(), Some("0.025"));

    let intro = mark_fields(&children[2]);
    assert_eq!(intro.kind, MarkKind::Cue);
    assert_eq!(intro.hotcue, None);
    assert_eq!(intro.name.as_deref(), Some("Intro"));
    let drop = mark_fields(&children[3]);
    assert_eq!(drop.kind, MarkKind::Cue);
    assert_eq!(drop.hotcue, Some(1));
    assert_eq!(drop.color.as_deref(), Some("#28E214"));
    let roll = mark_fields(&children[4]);
    assert_eq!(roll.kind, MarkKind::Loop);
    assert_eq!(roll.hotcue, Some(0));
    assert_eq!(mark_fields(&children[5]).kind, MarkKind::Skipped);
}

#[test]
fn playlist_tree_nests_folders_and_collects_ids() {
    let lib = read(SAMPLE).unwrap();
    assert_eq!(lib.playlists.len(), 2);
    let folder = &lib.playlists[0];
    assert_eq!(folder.name, "Sets");
    assert_eq!(folder.parent, None);
    assert!(folder.track_ids.is_empty());
    let pl = &lib.playlists[1];
    assert_eq!(pl.name, "Friday");
    assert_eq!(pl.parent, Some(0));
    assert_eq!(pl.track_ids, vec![100, 200]);
}

#[test]
fn empty_playlist_node_makes_a_crate_with_no_members() {
    let xml = br#"<DJ_PLAYLISTS><PLAYLISTS>
        <NODE Type="0" Name="ROOT" Count="1">
          <NODE Name="CUE Analysis Playlist" Type="1" KeyType="0" Entries="0"/>
        </NODE>
    </PLAYLISTS></DJ_PLAYLISTS>"#;
    let lib = read(xml).unwrap();
    assert_eq!(lib.playlists.len(), 1);
    assert_eq!(lib.playlists[0].name, "CUE Analysis Playlist");
    assert!(lib.playlists[0].track_ids.is_empty());
}

#[test]
fn location_keyed_playlist_imports_empty() {
    let xml = br#"<DJ_PLAYLISTS><PLAYLISTS>
        <NODE Type="0" Name="ROOT" Count="1">
          <NODE Name="ByPath" Type="1" KeyType="1" Entries="1">
            <TRACK Key="file://localhost/Users/dj/x.mp3"/>
          </NODE>
        </NODE>
    </PLAYLISTS></DJ_PLAYLISTS>"#;
    let lib = read(xml).unwrap();
    assert_eq!(lib.playlists.len(), 1);
    assert!(lib.playlists[0].track_ids.is_empty());
}

#[test]
fn tracks_in_playlists_are_not_collection_tracks() {
    let xml = br#"<DJ_PLAYLISTS><PLAYLISTS>
        <NODE Type="0" Name="ROOT" Count="1">
          <NODE Name="P" Type="1" KeyType="0" Entries="1"><TRACK Key="1"/></NODE>
        </NODE>
    </PLAYLISTS></DJ_PLAYLISTS>"#;
    assert_eq!(read(xml).unwrap().tracks.len(), 0);
}

#[test]
fn malformed_input_never_panics() {
    for bad in [
        &b""[..],
        b"not xml at all",
        b"<DJ_PLAYLISTS><COLLECTION><TRACK TrackID=",
        b"<DJ_PLAYLISTS><COLLECTION><TRACK></WRONG></DJ_PLAYLISTS>",
        &[0xff, 0xfe, 0x00, 0x01][..],
    ] {
        let _ = read(bad);
    }
}

#[test]
fn a_hard_error_is_reported_with_its_message() {
    let evs = vec![XmlEvent::Other, XmlEvent::Error("bad".to_string()), XmlEvent::Eof];
    let err = parse_events(&evs).unwrap_err();
    assert_eq!(err.0, "bad");
    assert_eq!(err.message(), "rekordbox xml parse: bad");
}

#[test]
fn an_unfinished_track_is_dropped_at_the_end() {
    let xml = br#"<DJ_PLAYLISTS><COLLECTION><TRACK TrackID="1"><TEMPO Inizio="0"/>"#;
    let lib = read(xml).unwrap();
    assert!(lib.tracks.is_empty());
}

fn tag(name: &str, attrs: &[(&str, &str)]) -> XmlTag {
    XmlTag {
        name: name.as_bytes().to_vec(),
        attrs: attrs
            .iter()
            .map(|(k, v)| XmlAttr { key: k.as_bytes().to_vec(), value: Some(v.to_string()) })
            .collect(),
    }
}

#[test]
fn colours_need_all_three_channels() {
    assert_eq!(parse_color(&tag("POSITION_MARK", &[("Red", "255"), ("Green", "0"), ("Blue", "10")])).as_deref(), Some("#FF000A"));
    assert_eq!(parse_color(&tag("POSITION_MARK", &[("Red", "255"), ("Green", "0")])), None);
    assert_eq!(parse_color(&tag("POSITION_MARK", &[("Red", "256"), ("Green", "0"), ("Blue", "0")])), None);
}

#[test]
fn bar_phase_clamps_battito() {
    assert_eq!(bar_phase(&tag("TEMPO", &[])), 0);
    assert_eq!(bar_phase(&tag("TEMPO", &[("Battito", "1")])), 0);
    assert_eq!(bar_phase(&tag("TEMPO", &[("Battito", "4")])), 3);
    assert_eq!(bar_phase(&tag("TEMPO", &[("Battito", "9")])), 3);
    assert_eq!(bar_phase(&tag("TEMPO", &[("Battito", "-2")])), 0);
    assert_eq!(bar_phase(&tag("TEMPO", &[("Battito", "x")])), 0);
}

#[test]
fn marks_sort_by_type_and_pad() {
    assert_eq!(mark_fields(&tag("POSITION_MARK", &[("Type", "3")])).kind, MarkKind::Skipped);
    assert_eq!(mark_fields(&tag("POSITION_MARK", &[])).kind, MarkKind::Cue);
    assert_eq!(mark_fields(&tag("POSITION_MARK", &[("Type", "zero")])).kind, MarkKind::Cue);
    assert_eq!(mark_fields(&tag("POSITION_MARK", &[("Num", "256")])).hotcue, None);
    assert_eq!(mark_fields(&tag("POSITION_MARK", &[("Num", "7")])).hotcue, Some(7));
    assert_eq!(mark_fields(&tag("POSITION_MARK", &[("Name", "")])).name, None);
}

#[test]
fn first_attribute_of_a_name_wins() {
    let t = XmlTag {
        name: b"TRACK".to_vec(),
        attrs: vec![
            XmlAttr { key: b"TrackID".to_vec(), value: None },
            XmlAttr { key: b"TrackID".to_vec(), value: Some("5".into()) },
        ],
    };
    assert_eq!(attr(&t, "TrackID"), None);
    assert_eq!(track_fields(&t).track_id, 0);
}

#[test]
fn rating_and_colour_are_read_from_a_track() {
    let t = tag("TRACK", &[("TrackID", "1"), ("Rating", "153"), ("Colour", "0xFF0000")]);
    let f = dub_library::rekordbox::track_fields(&t);
    assert_eq!(f.rating, Some(3));
    assert_eq!(f.color.as_deref(), Some("red"));
    let odd = tag("TRACK", &[("Rating", "300"), ("Colour", "0x808080")]);
    let g = dub_library::rekordbox::track_fields(&odd);
    assert_eq!(g.rating, None);
    assert_eq!(g.color, None);
}

#[test]
fn the_times_and_tempi_are_read_as_written() {
    let lib = read(SAMPLE).unwrap();
    let one = &lib.tracks[0].tag;
    assert_eq!(attr(one, "TotalTime").as_deref(), Some("5"));
    let two = &lib.tracks[1];
    assert_eq!(attr(&two.tag, "TotalTime").as_deref(), Some("180"));
    let children = &two.children;
    assert_eq!(attr(&children[0], "Bpm").as_deref(), Some("128.00"));
    assert_eq!(attr(&children[1], "Inizio").as_deref(), Some("48.026"));
    assert_eq!(attr(&children[2], "Start").as_deref(), Some("0.025"));
    assert_eq!(attr(&children[3], "Start").as_deref(), Some("32.0"));
    assert_eq!(attr(&children[4], "Start").as_deref(), Some("64.0"));
    assert_eq!(attr(&children[4], "End").as_deref(), Some("68.0"));
    assert_eq!(attr(&children[2], "End"), None);
}

#[test]
fn a_zero_tempo_reaches_the_caller_as_its_text() {
    // The library hands `AverageBpm` over verbatim; "0.00" is the text the
    // caller's number reading drops as no tempo.
    let lib = read(SAMPLE).unwrap();
    assert_eq!(attr(&lib.tracks[0].tag, "AverageBpm").as_deref(), Some("0.00"));
    assert_eq!(lib.tracks[0].children.len(), 0);
}

#[test]
fn text_runs_come_through_the_tokenizer() {
    let doc = read(br#"<DJ_PLAYLISTS><COLLECTION><TRACK TrackID="1" Name="a &amp; b"/></COLLECTION>text &lt;here&gt;</DJ_PLAYLISTS>"#).unwrap();
    let f = track_fields(&doc.tracks[0].tag);
    assert_eq!(f.title.as_deref(), Some("a & b"));
}
