use dub_library::sources::{
    discover_itunes, discover_rekordbox, discover_serato, discover_traktor, itunes_candidates,
    join_path, native_instruments_dir, rekordbox_candidates, serato_database_path, FolderEntry,
    SourceKind,
};

#[test]
fn source_tags_match_schema() {
    assert_eq!(SourceKind::Serato.as_str(), "serato");
    assert_eq!(SourceKind::Traktor.as_str(), "traktor");
    assert_eq!(SourceKind::Rekordbox.as_str(), "rekordbox");
    assert_eq!(SourceKind::Itunes.as_str(), "itunes");
}

#[test]
fn joining_puts_one_separator_between_components() {
    assert_eq!(join_path("/Users/dj", "Music"), "/Users/dj/Music");
    assert_eq!(join_path("/Users/dj/", "Music"), "/Users/dj/Music");
    assert_eq!(join_path("", "Music"), "Music");
}

#[test]
fn serato_folder_exists_when_its_database_does() {
    assert_eq!(serato_database_path("/Users/dj"), "/Users/dj/Music/_Serato_/database V2");
    let found = discover_serato("/Users/dj", true);
    assert_eq!(found.kind, SourceKind::Serato);
    assert_eq!(found.path, "/Users/dj/Music/_Serato_");
    assert!(found.exists);
    assert!(!discover_serato("/Users/dj", false).exists);
}

fn entry(name: &str, has_collection: bool) -> FolderEntry {
    FolderEntry { name: name.to_string(), has_collection }
}

#[test]
fn traktor_picks_the_highest_named_collection_folder() {
    assert_eq!(native_instruments_dir("/Users/dj"), "/Users/dj/Documents/Native Instruments");
    let entries = [
        entry("Traktor 3.10.0", true),
        entry("Traktor 3.9.1", true),
        entry("Traktor Pro 4", false),
        entry("Maschine 2", true),
    ];
    let found = discover_traktor("/Users/dj", &entries);
    assert_eq!(found.kind, SourceKind::Traktor);
    assert!(found.exists);
    assert_eq!(
        found.path,
        "/Users/dj/Documents/Native Instruments/Traktor 3.9.1/collection.nml"
    );
}

#[test]
fn traktor_without_a_collection_reports_the_expected_default() {
    let found = discover_traktor("/Users/dj", &[entry("Traktor 4", false), entry("Komplete", true)]);
    assert!(!found.exists);
    assert_eq!(found.path, "/Users/dj/Documents/Native Instruments/Traktor/collection.nml");
}

#[test]
fn rekordbox_takes_the_first_export_present() {
    let c = rekordbox_candidates("/Users/dj");
    assert_eq!(c[0], "/Users/dj/Documents/rekordbox/rekordbox.xml");
    assert_eq!(c[1], "/Users/dj/Library/Pioneer/rekordbox/rekordbox.xml");
    assert_eq!(c[2], "/Users/dj/Music/rekordbox/rekordbox.xml");
    let found = discover_rekordbox("/Users/dj", &[false, true, true]);
    assert_eq!(found.kind, SourceKind::Rekordbox);
    assert!(found.exists);
    assert_eq!(found.path, c[1]);
    let none = discover_rekordbox("/Users/dj", &[false, false, false]);
    assert!(!none.exists);
    assert_eq!(none.path, c[0]);
}

#[test]
fn itunes_takes_the_first_library_present() {
    let c = itunes_candidates("/Users/dj");
    assert_eq!(c[0], "/Users/dj/Music/iTunes/iTunes Library.xml");
    assert_eq!(c[1], "/Users/dj/Music/iTunes/iTunes Music Library.xml");
    assert_eq!(c[2], "/Users/dj/Music/Music/Library.xml");
    let found = discover_itunes("/Users/dj", &[false, false, true]);
    assert_eq!(found.kind, SourceKind::Itunes);
    assert!(found.exists);
    assert_eq!(found.path, c[2]);
    assert!(!discover_itunes("/Users/dj", &[false, false, false]).exists);
}
