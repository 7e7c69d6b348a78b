use dub_library::history::{HistoryEventType, HistoryWrite, SessionTracker, MIN_TRANSITION_PLAY_MS};

const T0: i64 = 1_700_000_000_000;
const MIN: i64 = MIN_TRANSITION_PLAY_MS;

fn events(writes: &[HistoryWrite]) -> Vec<HistoryEventType> {
    writes.iter().map(|w| w.event).collect()
}

#[test]
fn load_emits_single_load_row() {
    let mut tr = SessionTracker::new();
    let w = tr.deck_loaded(0, "a", T0);
    assert_eq!(events(&w), [HistoryEventType::Load]);
    assert_eq!(w[0].track_id, "a");
    assert_eq!(w[0].deck, 0);
}

#[test]
fn play_start_then_end_reports_segment_duration() {
    let mut tr = SessionTracker::new();
    tr.deck_loaded(0, "a", T0);
    let start = tr.play_started(0, T0 + 100);
    assert_eq!(events(&start), [HistoryEventType::PlayStart]);
    let end = tr.play_ended(0, T0 + 100 + 5_000);
    assert_eq!(events(&end), [HistoryEventType::PlayEnd]);
    assert_eq!(end[0].duration_played_ms, Some(5_000));
}

#[test]
fn play_started_without_track_is_noop() {
    let mut tr = SessionTracker::new();
    assert!(tr.play_started(0, T0).is_empty());
    assert!(tr.play_ended(0, T0 + 1_000).is_empty());
}

#[test]
fn play_started_twice_is_idempotent() {
    let mut tr = SessionTracker::new();
    tr.deck_loaded(0, "a", T0);
    assert_eq!(tr.play_started(0, T0).len(), 1);
    assert!(tr.play_started(0, T0 + 50).is_empty());
}

#[test]
fn handover_records_transition_pair_with_both_edges() {
    let mut tr = SessionTracker::new();
    tr.deck_loaded(0, "a", T0);
    tr.play_started(0, T0);
    tr.deck_loaded(1, "b", T0 + MIN);
    tr.play_started(1, T0 + MIN);
    let w = tr.play_ended(0, T0 + MIN + 10_000);
    assert_eq!(
        events(&w),
        [
            HistoryEventType::PlayEnd,
            HistoryEventType::TransitionOut,
            HistoryEventType::TransitionIn,
        ]
    );
    let out = &w[1];
    assert_eq!(out.track_id, "a");
    assert_eq!(out.deck, 0);
    assert_eq!(out.from_track_id.as_deref(), Some("a"));
    assert_eq!(out.to_track_id.as_deref(), Some("b"));
    let inn = &w[2];
    assert_eq!(inn.track_id, "b");
    assert_eq!(inn.deck, 1);
    assert_eq!(inn.from_track_id.as_deref(), Some("a"));
    assert_eq!(inn.to_track_id.as_deref(), Some("b"));
}

#[test]
fn cue_stab_under_min_play_records_no_transition() {
    let mut tr = SessionTracker::new();
    tr.deck_loaded(0, "a", T0);
    tr.play_started(0, T0);
    tr.deck_loaded(1, "b", T0 + 1_000);
    tr.play_started(1, T0 + 1_000);
    let w = tr.play_ended(1, T0 + 3_000);
    assert_eq!(events(&w), [HistoryEventType::PlayEnd]);
}

#[test]
fn min_play_gate_is_cumulative_across_segments() {
    let mut tr = SessionTracker::new();
    tr.deck_loaded(0, "a", T0);
    tr.deck_loaded(1, "b", T0);
    tr.play_started(1, T0);
    tr.play_started(0, T0);
    tr.play_ended(0, T0 + MIN / 2);
    tr.play_started(0, T0 + MIN / 2 + 1_000);
    let w = tr.play_ended(0, T0 + MIN + 2_000);
    assert_eq!(
        events(&w),
        [
            HistoryEventType::PlayEnd,
            HistoryEventType::TransitionOut,
            HistoryEventType::TransitionIn,
        ]
    );
}

#[test]
fn re_stopping_same_record_suppresses_duplicate_edge() {
    let mut tr = SessionTracker::new();
    tr.deck_loaded(0, "a", T0);
    tr.play_started(0, T0);
    tr.deck_loaded(1, "b", T0 + MIN);
    tr.play_started(1, T0 + MIN);
    let first = tr.play_ended(0, T0 + MIN + 1_000);
    assert_eq!(first.len(), 3);
    tr.play_started(0, T0 + MIN + 2_000);
    let again = tr.play_ended(0, T0 + MIN + 8_000);
    assert_eq!(events(&again), [HistoryEventType::PlayEnd]);
}

#[test]
fn genuine_return_edge_is_not_suppressed() {
    let mut tr = SessionTracker::new();
    tr.deck_loaded(0, "a", T0);
    tr.play_started(0, T0);
    tr.deck_loaded(1, "b", T0 + MIN);
    tr.play_started(1, T0 + MIN);
    assert_eq!(tr.play_ended(0, T0 + MIN + 1_000).len(), 3);
    tr.play_started(0, T0 + 2 * MIN);
    let back = tr.play_ended(1, T0 + 3 * MIN);
    assert_eq!(back.len(), 3);
    tr.play_started(1, T0 + 3 * MIN + 1_000);
    let fwd = tr.play_ended(0, T0 + 4 * MIN);
    assert_eq!(fwd.len(), 3);
}

#[test]
fn instant_doubles_same_track_records_no_transition() {
    let mut tr = SessionTracker::new();
    tr.deck_loaded(0, "a", T0);
    tr.play_started(0, T0);
    tr.deck_loaded(1, "a", T0 + MIN);
    tr.play_started(1, T0 + MIN);
    let w = tr.play_ended(0, T0 + 2 * MIN);
    assert_eq!(events(&w), [HistoryEventType::PlayEnd]);
}

#[test]
fn load_replace_while_playing_commits_handover_before_load() {
    let mut tr = SessionTracker::new();
    tr.deck_loaded(0, "a", T0);
    tr.play_started(0, T0);
    tr.deck_loaded(1, "b", T0 + MIN);
    tr.play_started(1, T0 + MIN);
    let w = tr.deck_loaded(0, "c", T0 + 2 * MIN);
    assert_eq!(
        events(&w),
        [
            HistoryEventType::PlayEnd,
            HistoryEventType::TransitionOut,
            HistoryEventType::TransitionIn,
            HistoryEventType::Load,
            HistoryEventType::PlayStart,
        ]
    );
    assert_eq!(w[3].track_id, "c");
    assert_eq!(w[4].track_id, "c");
}

#[test]
fn replace_loaded_track_keeps_playing_and_can_transition_later() {
    let mut tr = SessionTracker::new();
    tr.deck_loaded(0, "a", T0);
    tr.play_started(0, T0);
    tr.deck_loaded(1, "b", T0);
    tr.play_started(1, T0);
    tr.deck_loaded(0, "c", T0 + 2 * MIN);
    let w = tr.play_ended(0, T0 + 3 * MIN + 1_000);
    assert_eq!(
        events(&w),
        [
            HistoryEventType::PlayEnd,
            HistoryEventType::TransitionOut,
            HistoryEventType::TransitionIn,
        ]
    );
    assert_eq!(w[1].from_track_id.as_deref(), Some("c"));
    assert_eq!(w[1].to_track_id.as_deref(), Some("b"));
}

#[test]
fn load_into_paused_deck_does_not_open_a_segment() {
    let mut tr = SessionTracker::new();
    tr.deck_loaded(0, "a", T0);
    let w = tr.deck_loaded(0, "c", T0 + 1_000);
    assert_eq!(events(&w), [HistoryEventType::Load]);
    assert!(tr.play_ended(0, T0 + 2_000).is_empty());
}

#[test]
fn unload_ends_segment_and_clears_slot() {
    let mut tr = SessionTracker::new();
    tr.deck_loaded(0, "a", T0);
    tr.play_started(0, T0);
    let w = tr.deck_unloaded(0, T0 + 5_000);
    assert_eq!(events(&w), [HistoryEventType::PlayEnd]);
    assert!(tr.play_started(0, T0 + 6_000).is_empty());
}

#[test]
fn stopping_while_other_deck_paused_records_no_transition() {
    let mut tr = SessionTracker::new();
    tr.deck_loaded(0, "a", T0);
    tr.play_started(0, T0);
    tr.deck_loaded(1, "b", T0);
    let w = tr.play_ended(0, T0 + 2 * MIN);
    assert_eq!(events(&w), [HistoryEventType::PlayEnd]);
}

#[test]
fn out_of_range_deck_is_ignored() {
    let mut tr = SessionTracker::new();
    assert!(tr.deck_loaded(2, "a", T0).is_empty());
    assert!(tr.play_started(7, T0).is_empty());
}

#[test]
fn clock_step_backwards_clamps_duration_to_zero() {
    let mut tr = SessionTracker::new();
    tr.deck_loaded(0, "a", T0);
    tr.play_started(0, T0);
    let w = tr.play_ended(0, T0 - 10_000);
    assert_eq!(w[0].duration_played_ms, Some(0));
}

#[test]
fn event_type_strings_match_schema() {
    assert_eq!(HistoryEventType::Load.as_str(), "load");
    assert_eq!(HistoryEventType::PlayStart.as_str(), "play_start");
    assert_eq!(HistoryEventType::PlayEnd.as_str(), "play_end");
    assert_eq!(HistoryEventType::TransitionIn.as_str(), "transition_in");
    assert_eq!(HistoryEventType::TransitionOut.as_str(), "transition_out");
}

#[test]
fn session_ids_are_uuid_shaped_and_fresh() {
    let a = SessionTracker::new();
    let b = SessionTracker::default();
    assert_eq!(a.session_id().len(), 36);
    assert_ne!(a.session_id(), b.session_id());
}

#[test]
fn arbitrary_event_soup_keeps_rows_sane() {
    // A deterministic pseudo-random sweep of events.
    let tracks = ["a", "b", "c"];
    let mut tr = SessionTracker::new();
    let mut now = T0;
    let mut seed: u64 = 0x9E37_79B9_7F4A_7C15;
    for _ in 0..2_000 {
        seed ^= seed << 13;
        seed ^= seed >> 7;
        seed ^= seed << 17;
        let op = seed % 4;
        let deck = ((seed >> 8) % 2) as u32;
        let track = tracks[((seed >> 16) % 3) as usize];
        now += ((seed >> 24) % 120_000) as i64;
        let writes = match op {
            0 => tr.deck_loaded(deck, track, now),
            1 => tr.play_started(deck, now),
            2 => tr.play_ended(deck, now),
            _ => tr.deck_unloaded(deck, now),
        };
        for w in &writes {
            if let Some(d) = w.duration_played_ms {
                assert!(d >= 0);
            }
            if matches!(
                w.event,
                HistoryEventType::TransitionIn | HistoryEventType::TransitionOut
            ) {
                let from = w.from_track_id.as_deref();
                let to = w.to_track_id.as_deref();
                assert!(from.is_some() && to.is_some());
                assert_ne!(from, to);
            }
        }
    }
}

#[test]
fn session_ids_are_version_four_uuids() {
    let t = SessionTracker::new();
    let id: Vec<char> = t.session_id().chars().collect();
    assert_eq!(id.len(), 36);
    for (i, c) in id.iter().enumerate() {
        if [8, 13, 18, 23].contains(&i) {
            assert_eq!(*c, '-');
        } else {
            assert!(c.is_ascii_hexdigit() && !c.is_ascii_uppercase(), "{c}");
        }
    }
    assert_eq!(id[14], '4');
    assert!(['8', '9', 'a', 'b'].contains(&id[19]));
}
