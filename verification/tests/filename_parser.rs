use dub_library::filename_parser::{is_junk_title, parse, ParsedFilename};

fn p(input: &str) -> ParsedFilename {
    parse(input)
}

#[test]
fn pattern_artist_title() {
    let r = p("J Dilla - Workinonit.mp3");
    assert_eq!(r.artist.as_deref(), Some("J Dilla"));
    assert_eq!(r.title.as_deref(), Some("Workinonit"));
    assert!(r.year.is_none());
    assert!(r.label_catalog.is_none());
    assert!(r.version_segment.is_none());
}

#[test]
fn pattern_artist_title_with_version() {
    let r = p("Lady - Lady (Clean).mp3");
    assert_eq!(r.artist.as_deref(), Some("Lady"));
    assert_eq!(r.title.as_deref(), Some("Lady"));
    assert_eq!(r.version_segment.as_deref(), Some("Clean"));
}

#[test]
fn pattern_underscored_with_year() {
    let r = p("Modeselektor_-_Berlin_(VIP Mix)_[2014].mp3");
    assert_eq!(r.artist.as_deref(), Some("Modeselektor"));
    assert_eq!(r.title.as_deref(), Some("Berlin"));
    assert_eq!(r.year, Some(2014));
    assert_eq!(r.version_segment.as_deref(), Some("VIP Mix"));
}

#[test]
fn pattern_leading_label_catalog() {
    let r = p("[DEF JAM DEFR-12345] Method Man - Bring The Pain.mp3");
    assert_eq!(r.label_catalog.as_deref(), Some("DEF JAM DEFR-12345"));
    assert_eq!(r.artist.as_deref(), Some("Method Man"));
    assert_eq!(r.title.as_deref(), Some("Bring The Pain"));
}

#[test]
fn extracts_radio_edit_and_year_independently() {
    let r = p("Roxanne - Roxanne (Radio Edit) [2003].mp3");
    assert_eq!(r.artist.as_deref(), Some("Roxanne"));
    assert_eq!(r.title.as_deref(), Some("Roxanne"));
    assert_eq!(r.year, Some(2003));
    assert_eq!(r.version_segment.as_deref(), Some("Radio Edit"));
}

#[test]
fn title_only_no_dash_separator() {
    let r = p("Donuts.mp3");
    assert!(r.artist.is_none());
    assert_eq!(r.title.as_deref(), Some("Donuts"));
}

#[test]
fn handles_no_extension() {
    let r = p("J Dilla - Workinonit");
    assert_eq!(r.artist.as_deref(), Some("J Dilla"));
    assert_eq!(r.title.as_deref(), Some("Workinonit"));
}

#[test]
fn handles_dot_inside_title_preserves_extension_strip() {
    let r = p("J Dilla feat. Madlib - Track.mp3");
    assert_eq!(r.artist.as_deref(), Some("J Dilla feat. Madlib"));
    assert_eq!(r.title.as_deref(), Some("Track"));
}

#[test]
fn handles_unicode_artist_name() {
    let r = p("Björk - Hyperballad.mp3");
    assert_eq!(r.artist.as_deref(), Some("Björk"));
    assert_eq!(r.title.as_deref(), Some("Hyperballad"));
}

#[test]
fn empty_input_returns_empty_parsed() {
    let r = p("");
    assert!(r.is_empty());
}

#[test]
fn year_only_recognises_four_digit_range() {
    let r = p("Track (12345).mp3");
    assert!(r.year.is_none());
    let r = p("Track (1700).mp3");
    assert!(r.year.is_none());
    let r = p("Track (2100).mp3");
    assert!(r.year.is_none());
    let r = p("Track (1996).mp3");
    assert_eq!(r.year, Some(1996));
}

#[test]
fn is_junk_title_matches_track_nn_unknown_untitled() {
    assert!(is_junk_title("Track 01"));
    assert!(is_junk_title("Track 14"));
    assert!(is_junk_title("Track01"));
    assert!(is_junk_title("Unknown"));
    assert!(is_junk_title("UNTITLED"));
    assert!(is_junk_title("untitled"));
    assert!(is_junk_title("01"));
    assert!(is_junk_title("01.02"));
    assert!(is_junk_title(""));
    assert!(is_junk_title("   "));
}

#[test]
fn is_junk_title_matches_blog_noise() {
    assert!(is_junk_title("downloaded from xyzblog.com"));
    assert!(is_junk_title("Track (downloaded from xyzblog.com)"));
    assert!(is_junk_title("Free Download by Producer"));
    assert!(is_junk_title("xyzblog.blogspot.com"));
    assert!(is_junk_title("get it at http://example.com"));
}

#[test]
fn is_junk_title_rejects_legitimate_titles() {
    assert!(!is_junk_title("Donuts"));
    assert!(!is_junk_title("Track 1 (Live)"));
    assert!(!is_junk_title("99 Problems"));
    assert!(!is_junk_title("23"));
}

#[test]
fn collapses_whitespace_in_artist_title() {
    let r = p("J  Dilla   -    Workinonit.mp3");
    assert_eq!(r.artist.as_deref(), Some("J Dilla"));
    assert_eq!(r.title.as_deref(), Some("Workinonit"));
}

#[test]
fn long_extensions_and_symbols_stay_in_the_title() {
    let r = p("Artist - Song.remastered");
    assert_eq!(r.title.as_deref(), Some("Song.remastered"));
    let r = p("Artist - Song.m-p3");
    assert_eq!(r.title.as_deref(), Some("Song.m-p3"));
}

#[test]
fn unclosed_label_bracket_is_left_in_place() {
    let r = p("[No Close Artist - Title.mp3");
    assert!(r.label_catalog.is_none());
    assert_eq!(r.artist.as_deref(), Some("[No Close Artist"));
    assert_eq!(r.title.as_deref(), Some("Title"));
}

#[test]
fn dash_sides_may_be_empty() {
    let r = p("Artist Only -  - Title.mp3");
    assert_eq!(r.artist.as_deref(), Some("Artist Only"));
    assert_eq!(r.title.as_deref(), Some("- Title"));
    // A leading separator is trimmed away with the outer white space.
    let r = p(" - Title Only.mp3");
    assert!(r.artist.is_none());
    assert_eq!(r.title.as_deref(), Some("- Title Only"));
}

#[test]
fn year_with_inner_space_is_trimmed() {
    let r = p("Song [ 1999 ].flac");
    assert_eq!(r.year, Some(1999));
    assert_eq!(r.title.as_deref(), Some("Song"));
}

#[test]
fn junk_prefix_variants() {
    assert!(is_junk_title("track   7"));
    assert!(!is_junk_title("track"));
    assert!(!is_junk_title("trackless"));
    assert!(is_junk_title("0.5"));
}

#[test]
fn junk_ignores_case_and_surrounding_space() {
    for t in ["Track 01", "UNKNOWN", "  untitled  ", "Downloaded From XYZBLOG.COM", "Real Rock", "01.mp3"] {
        assert_eq!(is_junk_title(t), is_junk_title(&t.to_ascii_uppercase()), "{t}");
        assert_eq!(is_junk_title(t), is_junk_title(&t.to_ascii_lowercase()), "{t}");
        assert_eq!(is_junk_title(t), is_junk_title(t.trim()), "{t}");
    }
}
