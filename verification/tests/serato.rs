use dub_library::serato::autotags::autotag_tokens;
use dub_library::serato::beatgrid::parse_frame;
use dub_library::serato::database::{crate_name_components, parse_crate, parse_database_v2};
use dub_library::serato::geob::{find, has_id3_container, serato_geobs, AUTOTAGS, BEATGRID, MARKERS2};
use dub_library::serato::markers2::{parse, stored_markers, SeratoCue, SeratoLoop, SeratoMarkers};

fn tag(kind: &[u8; 4], payload: &[u8]) -> Vec<u8> {
    let mut out = Vec::new();
    out.extend_from_slice(kind);
    out.extend_from_slice(&(payload.len() as u32).to_be_bytes());
    out.extend_from_slice(payload);
    out
}

fn u16be(s: &str) -> Vec<u8> {
    s.encode_utf16().flat_map(u16::to_be_bytes).collect()
}

#[test]
fn parses_a_database_track() {
    let mut otrk = Vec::new();
    otrk.extend(tag(b"ttyp", &u16be("mp3")));
    otrk.extend(tag(b"pfil", &u16be("Users/dj/Music/track.mp3")));
    otrk.extend(tag(b"tsng", &u16be("Potential Victims")));
    otrk.extend(tag(b"tart", &u16be("Westside Connection")));
    otrk.extend(tag(b"talb", &u16be("The Best Of")));
    otrk.extend(tag(b"tgen", &u16be("Hip-Hop")));
    otrk.extend(tag(b"tbpm", &u16be("93.5")));
    otrk.extend(tag(b"tkey", &u16be("Am")));

    let mut db = Vec::new();
    db.extend(tag(b"vrsn", &u16be("2.0/Serato Scratch LIVE Database")));
    db.extend(tag(b"otrk", &otrk));

    let entries = parse_database_v2(&db);
    assert_eq!(entries.len(), 1);
    let e = &entries[0];
    assert_eq!(e.file_type.as_deref(), Some("mp3"));
    assert_eq!(e.file_path.as_deref(), Some("Users/dj/Music/track.mp3"));
    assert_eq!(e.title.as_deref(), Some("Potential Victims"));
    assert_eq!(e.artist.as_deref(), Some("Westside Connection"));
    assert_eq!(e.album.as_deref(), Some("The Best Of"));
    assert_eq!(e.genre.as_deref(), Some("Hip-Hop"));
    let bpm: f64 = e.bpm_text.as_deref().unwrap().parse().unwrap();
    assert!((bpm - 93.5).abs() < 1e-9);
    assert_eq!(e.key.as_deref(), Some("Am"));
}

#[test]
fn parses_crate_members() {
    let mut data = Vec::new();
    data.extend(tag(b"vrsn", &u16be("1.0/Serato ScratchLive Crate")));
    for p in ["Users/dj/a.mp3", "Users/dj/b.mp3"] {
        data.extend(tag(b"otrk", &tag(b"ptrk", &u16be(p))));
    }
    let paths = parse_crate(&data);
    assert_eq!(paths, vec!["Users/dj/a.mp3", "Users/dj/b.mp3"]);
}

#[test]
fn crate_nesting_from_filename() {
    assert_eq!(crate_name_components("Hip Hop"), vec!["Hip Hop"]);
    assert_eq!(
        crate_name_components("Hip Hop%%90s%%East"),
        vec!["Hip Hop", "90s", "East"]
    );
}

#[test]
fn database_malformed_never_panics() {
    for bad in [
        &b""[..],
        b"otrk",
        b"otrk\x00\x00\xff\xff",
        b"otrk\x00\x00\x00\x04ab",
        &[0xff, 0xfe, 0x00, 0x01][..],
    ] {
        let _ = parse_database_v2(bad);
        let _ = parse_crate(bad);
    }
}

#[test]
fn text_fields_trim_nuls_and_blank_fields_read_as_absent() {
    let mut otrk = Vec::new();
    otrk.extend(tag(b"tsng", &u16be("\0\0 Title \0")));
    otrk.extend(tag(b"tart", &u16be("   ")));
    otrk.extend(tag(b"talb", &u16be("first")));
    otrk.extend(tag(b"talb", &u16be("")));
    let db = tag(b"otrk", &otrk);
    let e = &parse_database_v2(&db)[0];
    assert_eq!(e.title.as_deref(), Some("Title"));
    assert_eq!(e.artist, None);
    // A later empty tag overwrites an earlier value.
    assert_eq!(e.album, None);
}

#[test]
fn utf16_surrogates_decode_and_lone_ones_are_replaced() {
    let mut payload = u16be("A😀");
    payload.extend_from_slice(&0xD800u16.to_be_bytes());
    payload.extend_from_slice(&u16be("B"));
    let db = tag(b"otrk", &tag(b"tsng", &payload));
    let e = &parse_database_v2(&db)[0];
    assert_eq!(e.title.as_deref(), Some("A😀\u{FFFD}B"));
}

#[test]
fn truncated_second_track_is_dropped() {
    let mut db = tag(b"otrk", &tag(b"tsng", &u16be("one")));
    let mut second = tag(b"otrk", &tag(b"tsng", &u16be("two")));
    second.truncate(second.len() - 1);
    db.extend(second);
    let entries = parse_database_v2(&db);
    assert_eq!(entries.len(), 1);
    assert_eq!(entries[0].title.as_deref(), Some("one"));
}

#[test]
fn crate_components_drop_empty_pieces() {
    assert_eq!(crate_name_components("%%A%% %%B%%"), vec!["A", "B"]);
    assert!(crate_name_components("").is_empty());
    assert_eq!(crate_name_components("a%%%b"), vec!["a", "%b"]);
}

fn b64(inner: &[u8]) -> String {
    const ALPHA: &[u8; 64] = b"ABCDEFGHIJKLMNOPQRSTUVWXYZabcdefghijklmnopqrstuvwxyz0123456789+/";
    let mut out = String::new();
    for chunk in inner.chunks(3) {
        let b = [chunk[0], *chunk.get(1).unwrap_or(&0), *chunk.get(2).unwrap_or(&0)];
        let n = (u32::from(b[0]) << 16) | (u32::from(b[1]) << 8) | u32::from(b[2]);
        let chars = chunk.len() + 1;
        for i in 0..chars {
            out.push(ALPHA[((n >> (18 - 6 * i)) & 63) as usize] as char);
        }
    }
    out
}

fn wrap(inner: &[u8]) -> Vec<u8> {
    let mut out = vec![0x01, 0x01];
    out.extend_from_slice(b64(inner).as_bytes());
    out
}

fn cue_entry(index: u8, ms: u32, name: &str) -> Vec<u8> {
    let mut body = vec![0x00, index];
    body.extend_from_slice(&ms.to_be_bytes());
    body.push(0x00);
    body.extend_from_slice(&[0xCC, 0x00, 0x00]);
    body.extend_from_slice(&[0x00, 0x00]);
    body.extend_from_slice(name.as_bytes());
    body.push(0x00);
    let mut entry = b"CUE\0".to_vec();
    entry.extend_from_slice(&(body.len() as u32).to_be_bytes());
    entry.extend_from_slice(&body);
    entry
}

fn loop_entry(index: u8, start: u32, end: u32, name: &str) -> Vec<u8> {
    let mut body = vec![0x00, index];
    body.extend_from_slice(&start.to_be_bytes());
    body.extend_from_slice(&end.to_be_bytes());
    body.extend_from_slice(&[0xff, 0xff, 0xff, 0xff, 0x00, 0x00, 0x27, 0xaa, 0xe1, 0x00]);
    body.extend_from_slice(name.as_bytes());
    body.push(0x00);
    let mut entry = b"LOOP\0".to_vec();
    entry.extend_from_slice(&(body.len() as u32).to_be_bytes());
    entry.extend_from_slice(&body);
    entry
}

#[test]
fn parses_cues() {
    let mut inner = vec![0x01, 0x01];
    inner.extend(cue_entry(0, 16000, "Intro"));
    inner.extend(cue_entry(3, 64000, "Drop"));
    inner.push(0x00);
    let m = parse(&wrap(&inner));
    assert_eq!(m.cues.len(), 2);
    assert_eq!(m.cues[0].index, 0);
    assert_eq!(m.cues[0].position_ms, 16000);
    assert_eq!(m.cues[0].name.as_deref(), Some("Intro"));
    assert_eq!(m.cues[1].index, 3);
    assert_eq!(m.cues[1].name.as_deref(), Some("Drop"));
}

#[test]
fn empty_or_garbage_is_empty_not_panic() {
    assert_eq!(parse(&[]), SeratoMarkers::default());
    assert_eq!(parse(b"\x01\x01"), SeratoMarkers::default());
    assert_eq!(parse(b"\x01\x01!!!!notbase64"), SeratoMarkers::default());
}

#[test]
fn parses_loops_and_skips_other_entries() {
    let mut inner = vec![0x01, 0x01];
    let mut color = b"COLOR\0".to_vec();
    color.extend_from_slice(&4u32.to_be_bytes());
    color.extend_from_slice(&[0, 0xff, 0xff, 0xff]);
    inner.extend(color);
    inner.extend(loop_entry(1, 1000, 5000, "Roll"));
    inner.push(0x00);
    // Newline-wrapped, NUL-padded base64.
    let mut payload = wrap(&inner);
    payload.insert(10, b'\n');
    payload.extend_from_slice(b"\0\0");
    let m = parse(&payload);
    assert!(m.cues.is_empty());
    assert_eq!(m.loops.len(), 1);
    assert_eq!(m.loops[0].index, 1);
    assert_eq!(m.loops[0].start_ms, 1000);
    assert_eq!(m.loops[0].end_ms, 5000);
    assert_eq!(m.loops[0].name.as_deref(), Some("Roll"));
}

#[test]
fn parses_raw_nul_separated() {
    let mut p = vec![0x01, 0x01];
    p.extend_from_slice(b"115.00\x00-3.20\x000.00\x00");
    let tokens = autotag_tokens(&p);
    assert_eq!(tokens, vec!["115.00", "-3.20", "0.00"]);
    let floats: Vec<f64> = tokens.iter().filter_map(|t| t.parse().ok()).collect();
    assert!((floats[0] - 115.0).abs() < 1e-6);
    assert!((floats[1] + 3.20).abs() < 1e-6);
    assert!((floats[2]).abs() < 1e-9);
}

#[test]
fn empty_is_default_never_panics() {
    assert!(autotag_tokens(&[]).is_empty());
    assert!(autotag_tokens(b"\x01\x01").is_empty());
}

#[test]
fn base64_wrapped_autotags_decode() {
    let inner = b"\x01\x01128.00\x00-1.50\x000.00\x00";
    let mut p = vec![0x01, 0x01];
    p.extend_from_slice(b64(inner).as_bytes());
    assert_eq!(autotag_tokens(&p), vec!["128.00", "-1.50", "0.00"]);
}

fn constant_grid(pos: f32, bpm: f32) -> Vec<u8> {
    let mut v = vec![0x01, 0x00];
    v.extend_from_slice(&1u32.to_be_bytes());
    v.extend_from_slice(&pos.to_be_bytes());
    v.extend_from_slice(&bpm.to_be_bytes());
    v.push(0x00);
    v
}

#[test]
fn constant_tempo_grid() {
    let g = parse_frame(&constant_grid(0.025, 174.0)).unwrap();
    assert!(g.first_marker.is_none());
    assert!((f64::from(f32::from_bits(g.terminal_position_bits)) - 0.025).abs() < 1e-6);
    assert!((f64::from(f32::from_bits(g.terminal_bpm_bits)) - 174.0).abs() < 1e-4);
}

#[test]
fn derives_bpm_from_first_interval() {
    let mut v = vec![0x01, 0x00];
    v.extend_from_slice(&2u32.to_be_bytes());
    v.extend_from_slice(&0.0f32.to_be_bytes());
    v.extend_from_slice(&4u32.to_be_bytes());
    v.extend_from_slice(&2.0f32.to_be_bytes());
    v.extend_from_slice(&0.0f32.to_be_bytes());
    v.push(0x00);
    let g = parse_frame(&v).unwrap();
    let (first_pos, beats) = g.first_marker.unwrap();
    assert_eq!(f32::from_bits(first_pos), 0.0);
    assert_eq!(beats, 4);
    assert!(g.second_position_bits.is_none());
    let dt = f64::from(f32::from_bits(g.terminal_position_bits) - f32::from_bits(first_pos));
    assert!((f64::from(beats) / dt * 60.0 - 120.0).abs() < 1e-4);
}

#[test]
fn malformed_returns_none_never_panics() {
    for bad in [&b""[..], b"\x01\x00", b"\x01\x00\x00\x00\x00\x09short"] {
        assert!(parse_frame(bad).is_none() || parse_frame(bad).is_some());
    }
    assert!(parse_frame(b"\x01\x00\x00\x00\x00\x00abcdefgh").is_none());
}

#[test]
fn geob_helpers_pick_serato_frames() {
    let objs = vec![
        ("Serato Markers2".to_string(), vec![1u8, 2]),
        ("Other".to_string(), vec![3u8]),
        ("Serato Autotags".to_string(), vec![4u8]),
    ];
    let kept = serato_geobs(&objs);
    assert_eq!(kept.len(), 2);
    assert_eq!(find(&kept, MARKERS2), Some(&[1u8, 2][..]));
    assert_eq!(find(&kept, AUTOTAGS), Some(&[4u8][..]));
    assert_eq!(find(&kept, BEATGRID), None);
    assert!(has_id3_container("mp3"));
    assert!(has_id3_container("aiff"));
    assert!(!has_id3_container("flac"));
}

#[test]
fn the_last_marker_of_a_slot_is_stored_and_empty_loops_are_not() {
    let cue = |index: u8, position_ms: u32| SeratoCue { index, position_ms, name: None };
    let lp = |index: u8, start_ms: u32, end_ms: u32| SeratoLoop { index, start_ms, end_ms, name: None };
    let markers = SeratoMarkers {
        cues: vec![cue(0, 100), cue(1, 200), cue(0, 300)],
        loops: vec![lp(2, 1_000, 2_000), lp(2, 5_000, 5_000), lp(3, 4_000, 3_000), lp(4, 0, 10)],
    };
    let stored = stored_markers(&markers);
    assert_eq!(stored.cues, vec![cue(1, 200), cue(0, 300)]);
    assert_eq!(stored.loops, vec![lp(2, 1_000, 2_000), lp(4, 0, 10)]);
}
