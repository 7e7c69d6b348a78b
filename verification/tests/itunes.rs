use dub_library::itunes::{parse_bytes, importable, parse_events, ItunesLibrary, ItunesPlaylist, ParseError};
use dub_library::xml::{XmlAttr, XmlEvent, XmlTag};

fn parse_library(data: &[u8]) -> Result<ItunesLibrary, ParseError> {
    parse_bytes(data)
}

const SAMPLE: &[u8] = br#"<?xml version="1.0" encoding="UTF-8"?>
<!DOCTYPE plist PUBLIC "-//Apple//DTD PLIST 1.0//EN" "http://www.apple.com/DTDs/PropertyList-1.0.dtd">
<plist version="1.0">
<dict>
  <key>Major Version</key><integer>1</integer>
  <key>Tracks</key>
  <dict>
    <key>2971</key>
    <dict>
      <key>Track ID</key><integer>2971</integer>
      <key>Name</key><string>Sweet Assed Child o Mine</string>
      <key>Artist</key><string>DJ Donna Summer</string>
      <key>Genre</key><string>Mashup</string>
      <key>BPM</key><integer>135</integer>
      <key>Year</key><integer>2008</integer>
      <key>Total Time</key><integer>261459</integer>
      <key>Location</key><string>file:///Users/dj/Music/Sweet%20Child.mp3</string>
    </dict>
  </dict>
  <key>Playlists</key>
  <array>
    <dict>
      <key>Name</key><string>Bangers</string>
      <key>Playlist Persistent ID</key><string>ABC123</string>
      <key>Playlist Items</key>
      <array>
        <dict><key>Track ID</key><integer>2971</integer></dict>
      </array>
    </dict>
    <dict>
      <key>Name</key><string>Folder</string>
      <key>Folder</key><true/>
    </dict>
  </array>
</dict>
</plist>"#;

#[test]
fn parses_tracks_and_playlists() {
    let lib = parse_library(SAMPLE).unwrap();
    assert_eq!(lib.tracks.len(), 1);
    let t = &lib.tracks[0];
    assert_eq!(t.track_id, 2971);
    assert_eq!(t.name.as_deref(), Some("Sweet Assed Child o Mine"));
    assert_eq!(t.artist.as_deref(), Some("DJ Donna Summer"));
    assert_eq!(t.genre.as_deref(), Some("Mashup"));
    assert_eq!(t.bpm.as_deref(), Some("135"));
    assert_eq!(t.year, Some(2008));
    assert_eq!(t.total_time_ms, Some(261_459));
    assert_eq!(t.path.as_deref(), Some("/Users/dj/Music/Sweet Child.mp3"));

    assert_eq!(lib.playlists.len(), 2);
    assert_eq!(lib.playlists[0].name, "Bangers");
    assert_eq!(lib.playlists[0].persistent_id.as_deref(), Some("ABC123"));
    assert_eq!(lib.playlists[0].track_ids, vec![2971]);
    assert!(!lib.playlists[0].is_folder);
    assert_eq!(lib.playlists[1].name, "Folder");
    assert!(lib.playlists[1].is_folder);
}

#[test]
fn itunes_malformed_never_panics() {
    for bad in [
        &b""[..],
        b"not xml",
        b"<plist><dict><key>Tracks</key><dict>",
        b"<plist><dict><key>x",
    ] {
        let _ = parse_library(bad);
    }
}

#[test]
fn a_stream_with_no_dict_is_an_empty_library() {
    let lib = parse_library(b"<plist></plist>").unwrap();
    assert!(lib.tracks.is_empty() && lib.playlists.is_empty());
}

#[test]
fn tracks_without_id_or_path_are_dropped_and_blank_fields_are_absent() {
    let xml = br#"<plist><dict><key>Tracks</key><dict>
      <key>1</key><dict><key>Name</key><string>No id</string></dict>
      <key>2</key><dict><key>Track ID</key><integer>2</integer><key>Artist</key><string>   </string>
        <key>Extra</key><dict><key>x</key><string>y</string></dict>
        <key>Album</key><string>Kept</string></dict>
    </dict></dict></plist>"#;
    let lib = parse_library(xml).unwrap();
    assert_eq!(lib.tracks.len(), 1);
    assert_eq!(lib.tracks[0].track_id, 2);
    assert_eq!(lib.tracks[0].artist, None);
    assert_eq!(lib.tracks[0].album.as_deref(), Some("Kept"));
}

#[test]
fn remote_locations_have_no_path() {
    let xml = br#"<plist><dict><key>Tracks</key><dict>
      <key>3</key><dict><key>Track ID</key><integer>3</integer>
        <key>Location</key><string>http://example.com/x.mp3</string></dict>
    </dict></dict></plist>"#;
    let lib = parse_library(xml).unwrap();
    assert_eq!(lib.tracks[0].path, None);
}

#[test]
fn built_in_playlists_are_marked_and_not_importable() {
    let xml = br#"<plist><dict><key>Playlists</key><array>
      <dict><key>Name</key><string>Library</string><key>Master</key><true/></dict>
      <dict><key>Name</key><string>Music</string><key>Distinguished Kind</key><integer>4</integer></dict>
      <dict><key>Name</key><string>Mine</string><key>Parent Persistent ID</key><string>F00</string></dict>
      <dict><key>Playlist Persistent ID</key><string>NONAME</string></dict>
    </array></dict></plist>"#;
    let lib = parse_library(xml).unwrap();
    assert_eq!(lib.playlists.len(), 3);
    assert!(lib.playlists[0].is_master);
    assert!(lib.playlists[1].distinguished);
    assert_eq!(lib.playlists[2].parent_persistent_id.as_deref(), Some("F00"));
    let kept: Vec<&ItunesPlaylist> = lib.playlists.iter().filter(|p| importable(p)).collect();
    assert_eq!(kept.len(), 1);
    assert_eq!(kept[0].name, "Mine");
}

#[test]
fn an_xml_error_is_reported() {
    let err = parse_events(&[XmlEvent::Error("broken".into())]).unwrap_err();
    assert_eq!(err.message(), "itunes plist parse: broken");
}
