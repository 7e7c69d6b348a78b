use dub_library::key_notation::to_camelot;

fn camelot(raw: &str) -> Option<String> {
    to_camelot(raw)
}

#[test]
fn camelot_passes_through_normalised() {
    assert_eq!(camelot("8A").as_deref(), Some("8A"));
    assert_eq!(camelot("12b").as_deref(), Some("12B"));
    assert_eq!(camelot(" 1A ").as_deref(), Some("1A"));
    assert_eq!(camelot("13A"), None);
    assert_eq!(camelot("0B"), None);
}

#[test]
fn open_key_rotates_onto_camelot() {
    assert_eq!(camelot("1d").as_deref(), Some("8B"));
    assert_eq!(camelot("1m").as_deref(), Some("8A"));
    assert_eq!(camelot("6d").as_deref(), Some("1B"));
    assert_eq!(camelot("7m").as_deref(), Some("2A"));
    assert_eq!(camelot("12D").as_deref(), Some("7B"));
    assert_eq!(camelot("13m"), None);
}

#[test]
fn musical_minor_and_major() {
    assert_eq!(camelot("Em").as_deref(), Some("9A"));
    assert_eq!(camelot("Bm").as_deref(), Some("10A"));
    assert_eq!(camelot("Ebm").as_deref(), Some("2A"));
    assert_eq!(camelot("Am").as_deref(), Some("8A"));
    assert_eq!(camelot("C").as_deref(), Some("8B"));
    assert_eq!(camelot("F#").as_deref(), Some("2B"));
    assert_eq!(camelot("Db").as_deref(), Some("3B"));
    assert_eq!(camelot("xyz"), None);
}

#[test]
fn musical_spelled_out_modes_and_unicode_accidentals() {
    assert_eq!(camelot("A minor").as_deref(), Some("8A"));
    assert_eq!(camelot("F# major").as_deref(), Some("2B"));
    assert_eq!(camelot("Ebmaj").as_deref(), Some("5B"));
    assert_eq!(camelot("Eb min").as_deref(), Some("2A"));
    assert_eq!(camelot("C♯m").as_deref(), Some("12A"));
    assert_eq!(camelot("D♭").as_deref(), Some("3B"));
    assert_eq!(camelot("am").as_deref(), Some("8A"));
}

#[test]
fn enharmonics_collapse_and_wrap() {
    assert_eq!(camelot("Cb"), camelot("B"));
    assert_eq!(camelot("B#"), camelot("C"));
    assert_eq!(camelot("A#m"), camelot("Bbm"));
}

#[test]
fn rejects_what_is_not_a_key() {
    for junk in ["", "  ", "o", "H", "Cx", "8", "A/B", "minor", "Am7"] {
        assert_eq!(camelot(junk), None, "{junk:?}");
    }
}

#[test]
fn every_major_key_lands_on_its_own_wheel_number() {
    let names = ["C", "Db", "D", "Eb", "E", "F", "F#", "G", "Ab", "A", "Bb", "B"];
    let mut seen: Vec<String> = names.iter().map(|n| camelot(n).unwrap()).collect();
    assert_eq!(seen[0], "8B");
    assert_eq!(seen[7], "9B");
    seen.sort();
    seen.dedup();
    assert_eq!(seen.len(), 12);
}

#[test]
fn open_key_accepts_a_plus_sign_like_u8_parsing() {
    assert_eq!(camelot("+1d").as_deref(), Some("8B"));
    assert_eq!(camelot("256m"), None);
}

#[test]
fn converting_canonical_camelot_changes_nothing() {
    for raw in ["Abm", "F# major", "1m", "12d", " 8a ", "Ebm", "Cb", "B#m"] {
        let once = to_camelot(raw).expect("recognised");
        assert_eq!(to_camelot(&once).as_deref(), Some(once.as_str()), "{raw}");
    }
}
