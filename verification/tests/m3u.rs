use dub_library::m3u::{display_name, render_m3u8, M3uEntry};

fn entry(path: &str, artist: Option<&str>, title: Option<&str>, secs: i64) -> M3uEntry {
    M3uEntry {
        path: path.to_string(),
        artist: artist.map(str::to_string),
        title: title.map(str::to_string),
        length_secs: secs,
    }
}

#[test]
fn writes_the_extended_header_and_one_pair_of_lines_per_track() {
    let out = render_m3u8(&[entry("/Users/dj/a.flac", Some("Sound Dimension"), Some("Real Rock"), 212)]);
    assert_eq!(out, "#EXTM3U\n#EXTINF:212,Sound Dimension - Real Rock\n/Users/dj/a.flac\n");
}

#[test]
fn an_unknown_duration_is_minus_one() {
    let out = render_m3u8(&[entry("/a.flac", Some("X"), Some("Y"), -1)]);
    assert!(out.contains("#EXTINF:-1,X - Y"), "{out}");
}

#[test]
fn a_nameless_track_falls_back_to_its_file_name() {
    let out = render_m3u8(&[entry("/Users/dj/Untitled Take 3.flac", None, None, -1)]);
    assert!(out.contains("#EXTINF:-1,Untitled Take 3"), "{out}");
}

#[test]
fn a_path_without_a_file_name_is_unknown() {
    assert_eq!(display_name(&entry("/", None, None, -1)), "Unknown");
}

#[test]
fn half_named_tracks_use_the_half_they_have() {
    let out = render_m3u8(&[
        entry("/a.flac", None, Some("Just A Title"), -1),
        entry("/b.flac", Some("Just An Artist"), None, -1),
    ]);
    assert!(out.contains(",Just A Title\n"), "{out}");
    assert!(out.contains(",Just An Artist\n"), "{out}");
}

#[test]
fn unicode_survives() {
    let out = render_m3u8(&[entry("/Users/dj/Café/ソウル.flac", Some("MFSB"), Some("ソウル･トレインのテーマ"), 180)]);
    assert!(out.contains("ソウル･トレインのテーマ"), "{out}");
    assert!(out.contains("/Users/dj/Café/ソウル.flac"), "{out}");
}

#[test]
fn an_empty_playlist_is_still_a_valid_file() {
    assert_eq!(render_m3u8(&[]), "#EXTM3U\n");
}
