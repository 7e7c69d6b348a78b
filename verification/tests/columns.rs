use dub_library::columns::{ColumnGroup, ColumnSet, LibraryColumnId, MetadataField, MetadataSource};

#[test]
fn ids_are_unique_across_the_registry() {
    let mut ids: Vec<String> = LibraryColumnId::all().iter().map(|c| c.as_str()).collect();
    let total = ids.len();
    ids.sort();
    ids.dedup();
    assert_eq!(ids.len(), total, "every column id must be distinct");
}

#[test]
fn every_id_round_trips_through_from_id() {
    for column in LibraryColumnId::all() {
        let id = column.as_str();
        assert_eq!(
            LibraryColumnId::from_id(&id),
            Some(column),
            "id {id} must parse back to itself"
        );
    }
}

#[test]
fn unknown_id_is_none_rather_than_an_error() {
    assert_eq!(LibraryColumnId::from_id("serato_energy"), None);
    assert_eq!(LibraryColumnId::from_id(""), None);
}

#[test]
fn per_source_ids_read_the_way_the_prd_writes_them() {
    assert_eq!(
        LibraryColumnId::PerSource(MetadataSource::Serato, MetadataField::Bpm).as_str(),
        "serato_bpm"
    );
    assert_eq!(
        LibraryColumnId::PerSource(MetadataSource::Traktor, MetadataField::Key).as_str(),
        "traktor_key"
    );
    assert_eq!(
        LibraryColumnId::PerSource(MetadataSource::Filename, MetadataField::Version).as_str(),
        "filename_version"
    );
}

#[test]
fn filename_source_offers_only_what_a_filename_carries() {
    let ids: Vec<String> = LibraryColumnId::all()
        .iter()
        .filter(|c| c.group() == ColumnGroup::PerSource(MetadataSource::Filename))
        .map(|c| c.as_str())
        .collect();
    assert_eq!(
        ids,
        vec![
            "filename_title",
            "filename_artist",
            "filename_year",
            "filename_version"
        ]
    );
}

#[test]
fn an_empty_set_generates_no_sql_at_all() {
    let set = ColumnSet::default();
    assert!(set.is_empty());
    assert_eq!(set.select_fragment(), "");
    assert_eq!(set.join_fragment(), "");
    assert!(set.primary_file_columns().is_empty());
}

#[test]
fn per_source_columns_add_no_joins() {
    let set = ColumnSet::new(vec![
        LibraryColumnId::PerSource(MetadataSource::Serato, MetadataField::Bpm),
        LibraryColumnId::PerSource(MetadataSource::Rekordbox, MetadataField::Key),
        LibraryColumnId::PerSource(MetadataSource::Id3, MetadataField::Comment),
    ]);
    assert_eq!(set.join_fragment(), "");
    assert_eq!(
        set.select_fragment(),
        ", sr.bpm AS x0, rb.key AS x1, i3.comment AS x2"
    );
}

#[test]
fn the_mix_history_group_shares_one_aggregate() {
    let set = ColumnSet::new(vec![
        LibraryColumnId::PlayCount,
        LibraryColumnId::LastPlayed,
        LibraryColumnId::LastLoaded,
        LibraryColumnId::PlayedLast7d,
    ]);
    assert_eq!(
        set.join_fragment().matches("LEFT JOIN").count(),
        1,
        "all four aggregate columns come from one subquery"
    );
}

#[test]
fn analysis_columns_pull_only_the_joins_they_need() {
    let auto_bpm = ColumnSet::new(vec![LibraryColumnId::BpmAuto]);
    assert!(auto_bpm.join_fragment().contains("track_beatgrids xg"));
    assert!(!auto_bpm.join_fragment().contains("track_keys"));

    let cached = ColumnSet::new(vec![
        LibraryColumnId::LufsI,
        LibraryColumnId::TruePeak,
        LibraryColumnId::Prepared,
    ]);
    assert_eq!(cached.join_fragment(), "");
}

#[test]
fn joins_are_stable_regardless_of_column_order() {
    let one = ColumnSet::new(vec![LibraryColumnId::InCrates, LibraryColumnId::BpmAuto]);
    let other = ColumnSet::new(vec![LibraryColumnId::BpmAuto, LibraryColumnId::InCrates]);
    assert_eq!(
        one.join_fragment(),
        other.join_fragment(),
        "statement cache hits depend on identical SQL text"
    );
}

#[test]
fn duplicate_ids_collapse() {
    let set = ColumnSet::new(vec![
        LibraryColumnId::Codec,
        LibraryColumnId::Codec,
        LibraryColumnId::FileSize,
    ]);
    assert_eq!(
        set.columns(),
        &[LibraryColumnId::Codec, LibraryColumnId::FileSize]
    );
}

#[test]
fn audio_file_columns_project_their_track_files_columns_once() {
    let set = ColumnSet::new(vec![
        LibraryColumnId::Codec,
        LibraryColumnId::SampleRate,
        LibraryColumnId::Missing,
    ]);
    assert_eq!(
        set.primary_file_columns(),
        vec!["codec", "is_missing", "sample_rate"]
    );
}

#[test]
fn every_column_belongs_to_exactly_one_group_and_has_a_label() {
    for column in LibraryColumnId::all() {
        assert!(
            !column.label().is_empty(),
            "{} needs a label",
            column.as_str()
        );
        assert!(!column.group().label().is_empty());
    }
}

#[test]
fn registry_has_sixty_columns_in_picker_order() {
    let all = LibraryColumnId::all();
    assert_eq!(all.len(), 60);
    assert_eq!(all[0], LibraryColumnId::DateAdded);
    assert_eq!(all[59], LibraryColumnId::PlayedLast7d);
}

#[test]
fn labels_and_sql_for_per_source_columns() {
    let c = LibraryColumnId::PerSource(MetadataSource::ITunes, MetadataField::Version);
    assert_eq!(c.label(), "iTunes Version");
    assert_eq!(c.sql(), "it.version_token");
    assert_eq!(LibraryColumnId::LastPlayed.sql(), "xh.last_played / 1000");
}

#[test]
fn select_fragment_numbers_past_nine() {
    let cols: Vec<LibraryColumnId> = LibraryColumnId::all().into_iter().take(11).collect();
    let set = ColumnSet::new(cols);
    let sql = set.select_fragment();
    assert!(sql.ends_with(" AS x10"), "{sql}");
    assert!(sql.starts_with(", t.created_at AS x0, xc.names AS x1"), "{sql}");
}

#[test]
fn joins_come_out_in_fixed_order() {
    let set = ColumnSet::new(vec![
        LibraryColumnId::PlayCount,
        LibraryColumnId::KeyAuto,
        LibraryColumnId::InCrates,
        LibraryColumnId::BpmAuto,
    ]);
    let sql = set.join_fragment();
    let grid = sql.find("track_beatgrids").unwrap();
    let key = sql.find("track_keys").unwrap();
    let crates = sql.find("crate_tracks").unwrap();
    let hist = sql.find("play_history").unwrap();
    assert!(grid < key && key < crates && crates < hist);
}
