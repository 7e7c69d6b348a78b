use dub_library::rows::{build_fts_query, marker_indices, memory_base, preferred_source, CrateRow, TrackSortKey};

#[test]
fn words_become_quoted_suffix_terms_joined_with_and() {
    assert_eq!(build_fts_query("workin"), "\"workin\"*");
    assert_eq!(build_fts_query("  stakes   is high "), "\"stakes\"* AND \"is\"* AND \"high\"*");
}

#[test]
fn short_and_punctuation_only_words_are_dropped() {
    assert_eq!(build_fts_query("a"), "");
    assert_eq!(build_fts_query("--- \"\" x"), "");
    assert_eq!(build_fts_query(""), "");
}

#[test]
fn quotes_are_stripped_and_inner_punctuation_kept() {
    assert_eq!(build_fts_query("\"don't\""), "\"don't\"*");
    assert_eq!(build_fts_query("-j.dilla-"), "\"j.dilla\"*");
    assert_eq!(build_fts_query("Café"), "\"Café\"*");
}

#[test]
fn memory_cues_park_above_the_pads() {
    assert_eq!(memory_base(&[]), 8);
    assert_eq!(memory_base(&[0, 3, 1]), 8);
    assert_eq!(memory_base(&[7]), 8);
    assert_eq!(memory_base(&[9, 2]), 10);
    assert_eq!(memory_base(&[255]), 255);
}

fn names(v: &[&str]) -> Vec<String> {
    v.iter().map(|s| s.to_string()).collect()
}

#[test]
fn the_djs_own_cues_win() {
    assert_eq!(preferred_source(&names(&["serato", "serato", "user"])).as_deref(), Some("user"));
}

#[test]
fn otherwise_the_source_with_most_markers_wins_ties_by_name() {
    assert_eq!(preferred_source(&names(&["traktor", "serato", "serato"])).as_deref(), Some("serato"));
    assert_eq!(preferred_source(&names(&["traktor", "serato"])).as_deref(), Some("serato"));
    assert_eq!(preferred_source(&names(&["rekordbox"])).as_deref(), Some("rekordbox"));
    assert_eq!(preferred_source(&[]), None);
}

#[test]
fn sort_keys_order_by_the_listing_expressions() {
    assert_eq!(TrackSortKey::CreatedAt.sql_column(), "t.created_at");
    assert_eq!(TrackSortKey::Title.sql_column(), "COALESCE(i3.title, fn.title)");
    assert_eq!(TrackSortKey::Year.sql_column(), "COALESCE(fn.year, i3.year)");
    assert_eq!(TrackSortKey::Bpm.sql_column(), "ag.bpm");
    let c = CrateRow { id: 1, name: "Sets".into(), parent_id: None, track_count: 0 };
    assert_eq!(c.name, "Sets");
}

#[test]
fn memory_markers_are_numbered_past_the_pads() {
    assert_eq!(marker_indices(&[Some(3), None, Some(0), None]), vec![3, 8, 0, 9]);
    assert_eq!(marker_indices(&[None, Some(10), None]), vec![11, 10, 12]);
    assert_eq!(marker_indices(&[]), Vec::<u8>::new());
}

#[test]
fn memory_markers_saturate_at_the_last_index() {
    assert_eq!(marker_indices(&[Some(255), None, None]), vec![255, 255, 255]);
    assert_eq!(marker_indices(&[Some(253), None, None, None]), vec![253, 254, 255, 255]);
}
