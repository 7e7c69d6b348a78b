use dub_library::importer::{
    detect_codec_from_extension, has_audio_extension, record_outcome, record_walk_error, should_import, track_for_file,
    FileOutcome,
    ImportError, ImportSummary,
};

#[test]
fn audio_extensions_match_in_any_case() {
    assert!(has_audio_extension("/music/a.mp3"));
    assert!(has_audio_extension("/music/a.FLAC"));
    assert!(has_audio_extension("/music/b.Aiff"));
    assert!(!has_audio_extension("/music/cover.jpg"));
    assert!(!has_audio_extension("/music/noext"));
    assert!(!has_audio_extension("/music/.mp3"));
}

#[test]
fn codecs_follow_the_extension() {
    assert_eq!(detect_codec_from_extension("/a.WAV"), Some("wav"));
    assert_eq!(detect_codec_from_extension("/a.aif"), Some("aiff"));
    assert_eq!(detect_codec_from_extension("/a.m4a"), Some("alac"));
    assert_eq!(detect_codec_from_extension("/a.alac"), Some("alac"));
    assert_eq!(detect_codec_from_extension("/a.aac"), Some("aac"));
    assert_eq!(detect_codec_from_extension("/a.ogg"), None);
    assert_eq!(detect_codec_from_extension("/a"), None);
}

#[test]
fn a_fresh_summary_counts_nothing() {
    let s = ImportSummary::default();
    assert_eq!((s.added, s.merged, s.sibling_versions, s.refreshed, s.skipped), (0, 0, 0, 0, 0));
    assert!(s.errors.is_empty());
    let e = ImportError { path: "/x.mp3".into(), reason: "stat: gone".into() };
    assert_eq!(e.reason, "stat: gone");
}

#[test]
fn only_audio_files_are_imported() {
    assert!(should_import("/m/a.FLAC", true));
    assert!(!should_import("/m/a.flac", false));
    assert!(!should_import("/m/cover.jpg", true));
}

#[test]
fn outcomes_are_tallied() {
    let mut s = ImportSummary::default();
    record_outcome(&mut s, "/m/a.mp3".into(), FileOutcome::Added);
    record_outcome(&mut s, "/m/b.mp3".into(), FileOutcome::Refreshed);
    record_outcome(&mut s, "/m/c.mp3".into(), FileOutcome::Failed("metadata probe failed: empty".into()));
    record_walk_error(&mut s, "/m/locked".into(), "permission denied");
    assert_eq!((s.added, s.refreshed, s.skipped, s.merged, s.sibling_versions), (1, 1, 2, 0, 0));
    assert_eq!(s.errors.len(), 2);
    assert_eq!(s.errors[0].path, "/m/c.mp3");
    assert_eq!(s.errors[0].reason, "metadata probe failed: empty");
    assert_eq!(s.errors[1].path, "/m/locked");
    assert_eq!(s.errors[1].reason, "walk error: permission denied");
}

#[test]
fn a_known_file_keeps_its_track() {
    assert_eq!(track_for_file(Some("t-1".into()), "t-new".into()), ("t-1".to_string(), false));
    assert_eq!(track_for_file(None, "t-new".into()), ("t-new".to_string(), true));
}
