use dub_library::dedupe::{decide, DedupeDecision, DedupeSide, SiblingReason, DURATION_DELTA_MS};

fn side(ms: u32, tokens: &[&str]) -> DedupeSide {
    DedupeSide { duration_ms: ms, version_tokens: tokens.iter().map(|t| t.to_string()).collect() }
}

#[test]
fn distinct_recordings_register_as_distinct() {
    assert!(matches!(decide(false, &side(12_000, &[]), &side(12_000, &[])), DedupeDecision::Distinct));
}

#[test]
fn identical_recordings_with_same_tokens_merge() {
    assert!(matches!(decide(true, &side(12_000, &["clean"]), &side(12_000, &["clean"])), DedupeDecision::Merge));
}

#[test]
fn clean_vs_dirty_refuses_to_merge() {
    match decide(true, &side(12_000, &["clean"]), &side(12_000, &["dirty"])) {
        DedupeDecision::SiblingVersion {
            reason: SiblingReason::VersionTokenMismatch { candidate_tokens, existing_tokens },
        } => {
            assert_eq!(candidate_tokens, vec!["clean".to_string()]);
            assert_eq!(existing_tokens, vec!["dirty".to_string()]);
        }
        other => panic!("expected VersionTokenMismatch, got {other:?}"),
    }
}

#[test]
fn duration_delta_within_threshold_allows_merge() {
    assert!(matches!(decide(true, &side(12_000, &[]), &side(12_150, &[])), DedupeDecision::Merge));
}

#[test]
fn duration_delta_at_threshold_refuses_merge() {
    match decide(true, &side(12_000, &[]), &side(12_000 + DURATION_DELTA_MS, &[])) {
        DedupeDecision::SiblingVersion { reason: SiblingReason::DurationDelta { delta_ms } } => {
            assert_eq!(delta_ms, 200)
        }
        other => panic!("expected DurationDelta, got {other:?}"),
    }
}

#[test]
fn duration_is_checked_before_tokens() {
    assert!(matches!(
        decide(true, &side(8_000, &["extended"]), &side(4_000, &["radio edit"])),
        DedupeDecision::SiblingVersion { reason: SiblingReason::DurationDelta { delta_ms: 4_000 } }
    ));
}

#[test]
fn missing_tokens_on_both_sides_is_not_a_mismatch() {
    assert!(matches!(decide(true, &side(12_000, &[]), &side(12_000, &[])), DedupeDecision::Merge));
}

#[test]
fn one_sided_token_refuses_to_merge() {
    assert!(matches!(
        decide(true, &side(12_000, &["clean"]), &side(12_000, &[])),
        DedupeDecision::SiblingVersion { reason: SiblingReason::VersionTokenMismatch { .. } }
    ));
}

#[test]
fn clean_vs_instrumental_refuses_to_merge() {
    assert!(matches!(
        decide(true, &side(12_000, &["clean"]), &side(12_000, &["instrumental"])),
        DedupeDecision::SiblingVersion { reason: SiblingReason::VersionTokenMismatch { .. } }
    ));
}

#[test]
fn radio_edit_vs_extended_mix_refuses_to_merge() {
    assert!(matches!(
        decide(true, &side(4_000, &["radio edit"]), &side(8_000, &["extended"])),
        DedupeDecision::SiblingVersion { .. }
    ));
}

#[test]
fn token_order_and_repeats_do_not_matter() {
    assert!(matches!(
        decide(true, &side(12_000, &["clean", "radio edit"]), &side(12_000, &["radio edit", "clean", "clean"])),
        DedupeDecision::Merge
    ));
}
