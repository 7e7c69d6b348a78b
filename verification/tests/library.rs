use dub_library::source::Source;
use dub_library::VERSION;

#[test]
fn version_is_nonempty() {
    assert!(!VERSION.is_empty());
}

#[test]
fn sources_are_distinct() {
    assert_ne!(Source::Serato, Source::Traktor);
    assert_ne!(Source::Rekordbox, Source::ITunes);
}

#[test]
fn source_strings_match_schema_check_constraints() {
    assert_eq!(Source::Serato.as_str(), Some("serato"));
    assert_eq!(Source::Traktor.as_str(), Some("traktor"));
    assert_eq!(Source::Rekordbox.as_str(), Some("rekordbox"));
    assert_eq!(Source::ITunes.as_str(), Some("itunes"));
    assert_eq!(Source::Lexicon.as_str(), None);
}
