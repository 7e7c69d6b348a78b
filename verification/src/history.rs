//! Mix-history capture state machine.
//!
//! Turns per-deck transport facts reported by the shell (loaded, play
//! started, play ended, unloaded) into `play_history` rows, including the
//! inferred deck-to-deck transitions. A transition is recorded on handover:
//! the moment a deck stops while the other deck is still playing a different
//! track. Two guards keep timecode cueing from flooding the history:
//!
//! * the outgoing track must have accumulated [`MIN_TRANSITION_PLAY_MS`] of
//!   play since it was loaded;
//! * re-stopping the same record records the same `from -> to` edge only
//!   once in a row.
//!
//! The tracker is clock-free: every event carries a caller-supplied
//! unix-millis timestamp.

use vstd::prelude::*;

verus! {

/// Minimum accumulated play time (since load) before a stopping track is
/// eligible to be the `from` side of a transition.
pub const MIN_TRANSITION_PLAY_MS: i64 = 30_000;

/// `play_history.event_type` values the tracker emits.
#[derive(Debug, Clone, Copy, PartialEq, Eq, Structural)]
pub enum HistoryEventType {
    /// A track was loaded onto a deck.
    Load,
    /// A deck began playing its loaded track.
    PlayStart,
    /// A deck stopped playing; `duration_played_ms` carries the segment.
    PlayEnd,
    /// This track was transitioned into (it kept playing).
    TransitionIn,
    /// This track was transitioned out of (it stopped).
    TransitionOut,
}

impl HistoryEventType {
    pub open spec fn spec_str(self) -> Seq<char> {
        match self {
            HistoryEventType::Load => "load"@,
            HistoryEventType::PlayStart => "play_start"@,
            HistoryEventType::PlayEnd => "play_end"@,
            HistoryEventType::TransitionIn => "transition_in"@,
            HistoryEventType::TransitionOut => "transition_out"@,
        }
    }

    /// Canonical string for the `play_history.event_type` constraint.
    pub fn as_str(&self) -> (s: &'static str)
        ensures
            s@ == self.spec_str(),
    {
        match self {
            HistoryEventType::Load => "load",
            HistoryEventType::PlayStart => "play_start",
            HistoryEventType::PlayEnd => "play_end",
            HistoryEventType::TransitionIn => "transition_in",
            HistoryEventType::TransitionOut => "transition_out",
        }
    }
}

/// One pending `play_history` row (the session id is stamped on by the
/// writer).
#[derive(Debug, Clone, PartialEq, Eq)]
pub struct HistoryWrite {
    /// Canonical track id the event is attached to.
    pub track_id: String,
    /// Deck index (0 = A, 1 = B).
    pub deck: u32,
    /// Event discriminator.
    pub event: HistoryEventType,
    /// Caller-supplied unix-millis wall clock.
    pub timestamp_ms: i64,
    /// Length of the just-ended play segment (`PlayEnd` only).
    pub duration_played_ms: Option<i64>,
    /// Transition edge: the track the set moved away from (both rows).
    pub from_track_id: Option<String>,
    /// Transition edge: the track the set moved to (both rows).
    pub to_track_id: Option<String>,
}

/// Spec-level view of a [`HistoryWrite`].
pub struct WriteSpec {
    pub track_id: Seq<char>,
    pub deck: u32,
    pub event: HistoryEventType,
    pub timestamp_ms: i64,
    pub duration_played_ms: Option<i64>,
    pub from_track_id: Option<Seq<char>>,
    pub to_track_id: Option<Seq<char>>,
}

pub open spec fn opt_str(o: Option<String>) -> Option<Seq<char>> {
    match o {
        Some(s) => Some(s@),
        None => None,
    }
}

impl View for HistoryWrite {
    type V = WriteSpec;

    open spec fn view(&self) -> WriteSpec {
        WriteSpec {
            track_id: self.track_id@,
            deck: self.deck,
            event: self.event,
            timestamp_ms: self.timestamp_ms,
            duration_played_ms: self.duration_played_ms,
            from_track_id: opt_str(self.from_track_id),
            to_track_id: opt_str(self.to_track_id),
        }
    }
}

pub open spec fn writes_view(v: Seq<HistoryWrite>) -> Seq<WriteSpec> {
    v.map_values(|w: HistoryWrite| w@)
}

/// A plain row (no duration, no edge).
pub open spec fn plain_row(track: Seq<char>, deck: u32, event: HistoryEventType, ts: i64) -> WriteSpec {
    WriteSpec {
        track_id: track,
        deck,
        event,
        timestamp_ms: ts,
        duration_played_ms: None,
        from_track_id: None,
        to_track_id: None,
    }
}

/// What a deck holds.
pub struct SlotState {
    pub track: Option<Seq<char>>,
    /// `Some(ts)` while a play segment is open.
    pub since: Option<i64>,
    /// Play time accumulated since the track was loaded.
    pub played: int,
}

/// The tracker's state: both decks and the last recorded edge.
pub struct TrackerState {
    pub deck0: SlotState,
    pub deck1: SlotState,
    pub last: Option<(Seq<char>, Seq<char>)>,
}

pub open spec fn empty_slot() -> SlotState {
    SlotState { track: None, since: None, played: 0 }
}

pub open spec fn slot_of(s: TrackerState, idx: int) -> SlotState {
    if idx == 0 {
        s.deck0
    } else {
        s.deck1
    }
}

pub open spec fn with_slot(s: TrackerState, idx: int, slot: SlotState) -> TrackerState {
    if idx == 0 {
        TrackerState { deck0: slot, ..s }
    } else {
        TrackerState { deck1: slot, ..s }
    }
}

/// The segment length: elapsed time, clamped at zero for a clock that
/// stepped backwards.
pub open spec fn segment_len(ts: i64, since: i64) -> int {
    if ts - since > 0 {
        ts - since
    } else {
        0
    }
}

/// Closing deck `idx`'s open segment at `ts` stays within `i64`.
pub open spec fn end_fits(s: TrackerState, idx: int, ts: i64) -> bool {
    let slot = slot_of(s, idx);
    slot.since matches Some(since) ==> (ts - since >= i64::MIN && ts - since <= i64::MAX
        && slot.played + segment_len(ts, since) <= i64::MAX)
}

/// Close deck `idx`'s open segment at `ts`: emit `PlayEnd`, then a handover
/// pair (`TransitionOut` for this deck, `TransitionIn` for the other) when
/// the other deck is playing a different track, this track has played at
/// least [`MIN_TRANSITION_PLAY_MS`] since load, and the edge is not the one
/// recorded last.
pub open spec fn end_segment(s: TrackerState, idx: int, ts: i64) -> (TrackerState, Seq<WriteSpec>) {
    let slot = slot_of(s, idx);
    if slot.track is None || slot.since is None {
        (s, Seq::empty())
    } else {
        let track = slot.track.unwrap();
        let seg = segment_len(ts, slot.since.unwrap());
        let played = slot.played + seg;
        let s1 = with_slot(s, idx, SlotState { track: slot.track, since: None, played });
        let end_row = WriteSpec {
            track_id: track,
            deck: idx as u32,
            event: HistoryEventType::PlayEnd,
            timestamp_ms: ts,
            duration_played_ms: Some(seg as i64),
            from_track_id: None,
            to_track_id: None,
        };
        let other = slot_of(s, 1 - idx);
        if other.track is None || other.since is None || other.track.unwrap() == track || played
            < MIN_TRANSITION_PLAY_MS || s.last == Some((track, other.track.unwrap())) {
            (s1, seq![end_row])
        } else {
            let to = other.track.unwrap();
            let out_row = WriteSpec {
                track_id: track,
                deck: idx as u32,
                event: HistoryEventType::TransitionOut,
                timestamp_ms: ts,
                duration_played_ms: None,
                from_track_id: Some(track),
                to_track_id: Some(to),
            };
            let in_row = WriteSpec {
                track_id: to,
                deck: (1 - idx) as u32,
                event: HistoryEventType::TransitionIn,
                timestamp_ms: ts,
                duration_played_ms: None,
                from_track_id: Some(track),
                to_track_id: Some(to),
            };
            (TrackerState { last: Some((track, to)), ..s1 }, seq![end_row, out_row, in_row])
        }
    }
}

/// A track was loaded onto `deck`: the running segment (if any) ends first,
/// then a `Load` row; if the deck was playing, the new track's segment opens
/// at once with a `PlayStart` row. Out-of-range decks are ignored.
pub open spec fn deck_loaded_spec(s: TrackerState, deck: u32, track: Seq<char>, ts: i64) -> (
    TrackerState,
    Seq<WriteSpec>,
) {
    if deck >= 2 {
        (s, Seq::empty())
    } else {
        let idx = deck as int;
        let was_playing = slot_of(s, idx).since is Some;
        let (s1, rows) = end_segment(s, idx, ts);
        let load = plain_row(track, deck, HistoryEventType::Load, ts);
        if was_playing {
            (
                with_slot(s1, idx, SlotState { track: Some(track), since: Some(ts), played: 0 }),
                rows.push(load).push(plain_row(track, deck, HistoryEventType::PlayStart, ts)),
            )
        } else {
            (
                with_slot(s1, idx, SlotState { track: Some(track), since: None, played: 0 }),
                rows.push(load),
            )
        }
    }
}

/// The deck no longer holds a library track: the open segment ends and the
/// slot empties.
pub open spec fn deck_unloaded_spec(s: TrackerState, deck: u32, ts: i64) -> (
    TrackerState,
    Seq<WriteSpec>,
) {
    if deck >= 2 {
        (s, Seq::empty())
    } else {
        let (s1, rows) = end_segment(s, deck as int, ts);
        (with_slot(s1, deck as int, empty_slot()), rows)
    }
}

/// The deck's transport started: a segment opens with a `PlayStart` row,
/// unless the deck holds no track or is already playing.
pub open spec fn play_started_spec(s: TrackerState, deck: u32, ts: i64) -> (
    TrackerState,
    Seq<WriteSpec>,
) {
    if deck >= 2 {
        (s, Seq::empty())
    } else {
        let slot = slot_of(s, deck as int);
        if slot.track is None || slot.since is Some {
            (s, Seq::empty())
        } else {
            (
                with_slot(s, deck as int, SlotState { since: Some(ts), ..slot }),
                seq![plain_row(slot.track.unwrap(), deck, HistoryEventType::PlayStart, ts)],
            )
        }
    }
}

/// The deck's transport stopped: the open segment ends.
pub open spec fn play_ended_spec(s: TrackerState, deck: u32, ts: i64) -> (
    TrackerState,
    Seq<WriteSpec>,
) {
    if deck >= 2 {
        (s, Seq::empty())
    } else {
        end_segment(s, deck as int, ts)
    }
}

/// Rows are well-formed: a segment length is never negative, and a
/// transition row always names both edges, which differ.
pub open spec fn rows_sane(rows: Seq<WriteSpec>) -> bool {
    forall|i: int|
        0 <= i < rows.len() ==> {
            &&& (#[trigger] rows[i]).duration_played_ms matches Some(d) ==> d >= 0
            &&& (rows[i].event == HistoryEventType::TransitionIn || rows[i].event
                == HistoryEventType::TransitionOut) ==> (rows[i].from_track_id is Some
                && rows[i].to_track_id is Some && rows[i].from_track_id != rows[i].to_track_id)
        }
}

proof fn lemma_end_segment_sane(s: TrackerState, idx: int, ts: i64)
    requires
        0 <= idx < 2,
        end_fits(s, idx, ts),
    ensures
        rows_sane(end_segment(s, idx, ts).1),
{
}

/// Whatever the event sequence, the tracker never emits a negative play
/// segment nor a degenerate transition (missing an edge, or from a track to
/// itself).
pub proof fn lemma_rows_always_sane(s: TrackerState, deck: u32, track: Seq<char>, ts: i64)
    requires
        deck < 2 ==> end_fits(s, deck as int, ts),
    ensures
        rows_sane(deck_loaded_spec(s, deck, track, ts).1),
        rows_sane(deck_unloaded_spec(s, deck, ts).1),
        rows_sane(play_started_spec(s, deck, ts).1),
        rows_sane(play_ended_spec(s, deck, ts).1),
{
    if deck < 2 {
        lemma_end_segment_sane(s, deck as int, ts);
        let rows = end_segment(s, deck as int, ts).1;
        let l = deck_loaded_spec(s, deck, track, ts).1;
        assert forall|i: int| 0 <= i < l.len() implies ({
            &&& (#[trigger] l[i]).duration_played_ms matches Some(d) ==> d >= 0
            &&& (l[i].event == HistoryEventType::TransitionIn || l[i].event
                == HistoryEventType::TransitionOut) ==> (l[i].from_track_id is Some
                && l[i].to_track_id is Some && l[i].from_track_id != l[i].to_track_id)
        }) by {
            if i < rows.len() {
                assert(l[i] == rows[i]);
            }
        }
    }
}

/// One transport fact the shell reports, with its deck and time.
pub enum TrackerEvent {
    Loaded(u32, Seq<char>, i64),
    Unloaded(u32, i64),
    Started(u32, i64),
    Ended(u32, i64),
}

/// The tracker's response to one event: the next state and the rows.
pub open spec fn step_event(s: TrackerState, e: TrackerEvent) -> (TrackerState, Seq<WriteSpec>) {
    match e {
        TrackerEvent::Loaded(deck, track, ts) => deck_loaded_spec(s, deck, track, ts),
        TrackerEvent::Unloaded(deck, ts) => deck_unloaded_spec(s, deck, ts),
        TrackerEvent::Started(deck, ts) => play_started_spec(s, deck, ts),
        TrackerEvent::Ended(deck, ts) => play_ended_spec(s, deck, ts),
    }
}

/// An event whose segment arithmetic stays within `i64`.
pub open spec fn event_fits(s: TrackerState, e: TrackerEvent) -> bool {
    match e {
        TrackerEvent::Loaded(deck, _, ts) => deck < 2 ==> end_fits(s, deck as int, ts),
        TrackerEvent::Unloaded(deck, ts) => deck < 2 ==> end_fits(s, deck as int, ts),
        TrackerEvent::Started(_, _) => true,
        TrackerEvent::Ended(deck, ts) => deck < 2 ==> end_fits(s, deck as int, ts),
    }
}

/// The state after a sequence of events and every row it emitted, in order.
pub open spec fn run_events(s: TrackerState, evs: Seq<TrackerEvent>) -> (TrackerState, Seq<WriteSpec>)
    decreases evs.len(),
{
    if evs.len() == 0 {
        (s, Seq::empty())
    } else {
        let (s1, r1) = step_event(s, evs[0]);
        let (s2, r2) = run_events(s1, evs.drop_first());
        (s2, r1 + r2)
    }
}

/// Every event of the sequence, from the state it meets, stays within `i64`.
pub open spec fn all_fit(s: TrackerState, evs: Seq<TrackerEvent>) -> bool
    decreases evs.len(),
{
    evs.len() == 0 || (event_fits(s, evs[0]) && all_fit(step_event(s, evs[0]).0, evs.drop_first()))
}

proof fn lemma_rows_sane_concat(a: Seq<WriteSpec>, b: Seq<WriteSpec>)
    requires
        rows_sane(a),
        rows_sane(b),
    ensures
        rows_sane(a + b),
{
    assert forall|i: int| 0 <= i < (a + b).len() implies ({
        &&& (#[trigger] (a + b)[i]).duration_played_ms matches Some(d) ==> d >= 0
        &&& ((a + b)[i].event == HistoryEventType::TransitionIn || (a + b)[i].event
            == HistoryEventType::TransitionOut) ==> ((a + b)[i].from_track_id is Some
            && (a + b)[i].to_track_id is Some && (a + b)[i].from_track_id != (a + b)[i].to_track_id)
    }) by {
        if i < a.len() {
            assert((a + b)[i] == a[i]);
        } else {
            assert((a + b)[i] == b[i - a.len()]);
        }
    }
}

/// Over any sequence of events (within `i64`), every row the tracker emits
/// is sane: no negative play segment, no transition missing an edge or
/// leading from a track to itself.
pub proof fn lemma_rows_sane_over_sequences(s: TrackerState, evs: Seq<TrackerEvent>)
    requires
        all_fit(s, evs),
    ensures
        rows_sane(run_events(s, evs).1),
    decreases evs.len(),
{
    if evs.len() > 0 {
        let e = evs[0];
        match e {
            TrackerEvent::Loaded(deck, track, ts) => lemma_rows_always_sane(s, deck, track, ts),
            TrackerEvent::Unloaded(deck, ts) => lemma_rows_always_sane(s, deck, Seq::empty(), ts),
            TrackerEvent::Started(deck, ts) => {
                if deck < 2 {
                    let slot = slot_of(s, deck as int);
                    if !(slot.track is None || slot.since is Some) {
                        let r = play_started_spec(s, deck, ts).1;
                        assert(r.len() == 1);
                        assert(r[0].duration_played_ms is None);
                    }
                }
            },
            TrackerEvent::Ended(deck, ts) => lemma_rows_always_sane(s, deck, Seq::empty(), ts),
        }
        let s1 = step_event(s, e).0;
        lemma_rows_sane_over_sequences(s1, evs.drop_first());
        lemma_rows_sane_concat(step_event(s, e).1, run_events(s1, evs.drop_first()).1);
    }
}

/// A second play-start on a deck that is already playing records nothing.
pub proof fn lemma_play_started_idempotent(s: TrackerState, deck: u32, t1: i64, t2: i64)
    ensures
        play_started_spec(play_started_spec(s, deck, t1).0, deck, t2).1.len() == 0,
{
}

/// A handover is only recorded for a track that has played at least
/// [`MIN_TRANSITION_PLAY_MS`] since it was loaded, counting every segment.
pub proof fn lemma_transition_needs_min_play(s: TrackerState, idx: int, ts: i64)
    requires
        0 <= idx < 2,
        end_segment(s, idx, ts).1.len() > 1,
    ensures
        slot_of(s, idx).played + segment_len(ts, slot_of(s, idx).since.unwrap())
            >= MIN_TRANSITION_PLAY_MS,
{
}

/// A `PlayEnd` row reports the length of the segment it closes: stopping a
/// deck that holds a track and has been playing since `since` emits, first,
/// a `PlayEnd` row for that track at `ts` whose duration is `ts - since`
/// (0 when the clock stepped back), whatever play the track accumulated in
/// earlier segments.
pub proof fn lemma_play_end_reports_segment(s: TrackerState, deck: u32, ts: i64, since: i64)
    requires
        deck < 2,
        slot_of(s, deck as int).track is Some,
        slot_of(s, deck as int).since == Some(since),
        ts - since <= i64::MAX,
    ensures
        play_ended_spec(s, deck, ts).1.len() >= 1,
        play_ended_spec(s, deck, ts).1[0].event == HistoryEventType::PlayEnd,
        play_ended_spec(s, deck, ts).1[0].track_id == slot_of(s, deck as int).track.unwrap(),
        play_ended_spec(s, deck, ts).1[0].timestamp_ms == ts,
        play_ended_spec(s, deck, ts).1[0].duration_played_ms == Some(
            (if ts - since > 0 {
                ts - since
            } else {
                0
            }) as i64,
        ),
{
}

/// Re-stopping the same record during one mix-out does not record the
/// same edge twice in a row.
pub proof fn lemma_repeated_edge_suppressed(s: TrackerState, idx: int, ts: i64)
    requires
        0 <= idx < 2,
        slot_of(s, idx).track matches Some(a) && slot_of(s, 1 - idx).track matches Some(b)
            && s.last == Some((a, b)),
    ensures
        end_segment(s, idx, ts).1.len() <= 1,
{
}

/// Events for a deck other than 0 or 1 are ignored: no rows, no change.
pub proof fn lemma_out_of_range_deck_ignored(s: TrackerState, deck: u32, track: Seq<char>, ts: i64)
    requires
        deck >= 2,
    ensures
        deck_loaded_spec(s, deck, track, ts) == (s, Seq::<WriteSpec>::empty()),
        deck_unloaded_spec(s, deck, ts) == (s, Seq::<WriteSpec>::empty()),
        play_started_spec(s, deck, ts) == (s, Seq::<WriteSpec>::empty()),
        play_ended_spec(s, deck, ts) == (s, Seq::<WriteSpec>::empty()),
{
}

pub open spec fn initial_state() -> TrackerState {
    TrackerState { deck0: empty_slot(), deck1: empty_slot(), last: None }
}

/// One deck's transport state.
#[derive(Debug)]
struct DeckSlot {
    track_id: Option<String>,
    playing_since_ms: Option<i64>,
    played_ms_since_load: i64,
}

impl DeckSlot {
    spec fn state(&self) -> SlotState {
        SlotState {
            track: opt_str(self.track_id),
            since: self.playing_since_ms,
            played: self.played_ms_since_load as int,
        }
    }

    fn empty() -> (d: DeckSlot)
        ensures
            d.state() == empty_slot(),
            d.played_ms_since_load >= 0,
    {
        DeckSlot { track_id: None, playing_since_ms: None, played_ms_since_load: 0 }
    }
}

/// Per-app-run mix-history tracker: the session id (one per construction,
/// one "gig / practice run") and the per-deck transport state needed to
/// infer transitions.
#[derive(Debug)]
pub struct SessionTracker {
    session_id: String,
    deck0: DeckSlot,
    deck1: DeckSlot,
    last_transition: Option<(String, String)>,
}

pub open spec fn edge_view(e: Option<(String, String)>) -> Option<(Seq<char>, Seq<char>)> {
    match e {
        Some((a, b)) => Some((a@, b@)),
        None => None,
    }
}

impl View for SessionTracker {
    type V = TrackerState;

    closed spec fn view(&self) -> TrackerState {
        TrackerState {
            deck0: self.deck0.state(),
            deck1: self.deck1.state(),
            last: edge_view(self.last_transition),
        }
    }
}

/// A lower-case hexadecimal digit.
pub open spec fn is_lower_hex(c: char) -> bool {
    ('0' <= c <= '9') || ('a' <= c <= 'f')
}

/// The hyphenated lower-case text of a version-4 (random) UUID:
/// `xxxxxxxx-xxxx-4xxx-yxxx-xxxxxxxxxxxx`, with `y` one of `8`, `9`, `a`, `b`.
pub open spec fn is_uuid_v4_text(s: Seq<char>) -> bool {
    &&& s.len() == 36
    &&& forall|i: int|
        0 <= i < 36 ==> if i == 8 || i == 13 || i == 18 || i == 23 {
            #[trigger] s[i] == '-'
        } else {
            is_lower_hex(s[i])
        }
    &&& s[14] == '4'
    &&& (s[19] == '8' || s[19] == '9' || s[19] == 'a' || s[19] == 'b')
}

/// A fresh random session id: `Uuid::new_v4`, written by its `Display`
/// (hyphenated, lower-case hex). Which random bits it holds is not stated.
#[verifier::external_body]
fn new_session_id() -> (s: String)
    ensures
        is_uuid_v4_text(s@),
{
    uuid::Uuid::new_v4().to_string()
}

impl SessionTracker {
    /// The tracker's invariant: accumulated play is never negative.
    pub closed spec fn wf(&self) -> bool {
        self.deck0.played_ms_since_load >= 0 && self.deck1.played_ms_since_load >= 0
    }

    /// Fresh tracker with a new random session id and both decks empty.
    pub fn new() -> (t: SessionTracker)
        ensures
            t.wf(),
            t@ == initial_state(),
            is_uuid_v4_text(t.spec_session_id()),
    {
        SessionTracker {
            session_id: new_session_id(),
            deck0: DeckSlot::empty(),
            deck1: DeckSlot::empty(),
            last_transition: None,
        }
    }

    /// The opaque per-run marker stamped onto every row.
    pub fn session_id(&self) -> (s: &str)
        ensures
            s@ == self.spec_session_id(),
    {
        self.session_id.as_str()
    }

    /// The id this tracker stamps onto its rows.
    pub closed spec fn spec_session_id(&self) -> Seq<char> {
        self.session_id@
    }

    fn slot(&self, idx: usize) -> (d: &DeckSlot)
        requires
            idx < 2,
        ensures
            d.state() == slot_of(self@, idx as int),
            d.played_ms_since_load == if idx == 0 {
                self.deck0.played_ms_since_load
            } else {
                self.deck1.played_ms_since_load
            },
    {
        if idx == 0 {
            &self.deck0
        } else {
            &self.deck1
        }
    }

    fn set_slot(&mut self, idx: usize, d: DeckSlot)
        requires
            idx < 2,
        ensures
            final(self)@ == with_slot(old(self)@, idx as int, d.state()),
            final(self).session_id == old(self).session_id,
            idx == 0 ==> final(self).deck1.played_ms_since_load == old(self).deck1.played_ms_since_load
                && final(self).deck0.played_ms_since_load == d.played_ms_since_load,
            idx == 1 ==> final(self).deck0.played_ms_since_load == old(self).deck0.played_ms_since_load
                && final(self).deck1.played_ms_since_load == d.played_ms_since_load,
    {
        if idx == 0 {
            self.deck0 = d;
        } else {
            self.deck1 = d;
        }
    }

    fn clone_opt(o: &Option<String>) -> (r: Option<String>)
        ensures
            opt_str(r) == opt_str(*o),
    {
        match o {
            Some(s) => Some(s.clone()),
            None => None,
        }
    }

    /// Close an open play segment on `idx`: emit `PlayEnd`, then commit a
    /// handover transition if the guards pass.
    fn end_segment(&mut self, idx: usize, timestamp_ms: i64, out: &mut Vec<HistoryWrite>)
        requires
            idx < 2,
            old(self).wf(),
            end_fits(old(self)@, idx as int, timestamp_ms),
        ensures
            final(self).wf(),
            final(self).session_id == old(self).session_id,
            final(self)@ == end_segment(old(self)@, idx as int, timestamp_ms).0,
            writes_view(final(out)@) == writes_view(old(out)@) + end_segment(
                old(self)@,
                idx as int,
                timestamp_ms,
            ).1,
    {
        let ghost s0 = self@;
        let track_opt = Self::clone_opt(&self.slot(idx).track_id);
        let since_opt = self.slot(idx).playing_since_ms;
        let (track_id, since) = match (track_opt, since_opt) {
            (Some(t), Some(s)) => (t, s),
            _ => {
                return;
            },
        };
        let diff = timestamp_ms - since;
        let segment_ms = if diff > 0 {
            diff
        } else {
            0
        };
        let played = self.slot(idx).played_ms_since_load + segment_ms;
        let kept = Self::clone_opt(&self.slot(idx).track_id);
        self.set_slot(
            idx,
            DeckSlot { track_id: kept, playing_since_ms: None, played_ms_since_load: played },
        );
        let ghost end_row_spec = end_segment(s0, idx as int, timestamp_ms).1[0];
        out.push(
            HistoryWrite {
                track_id: track_id.clone(),
                deck: idx as u32,
                event: HistoryEventType::PlayEnd,
                timestamp_ms,
                duration_played_ms: Some(segment_ms),
                from_track_id: None,
                to_track_id: None,
            },
        );
        proof {
            assert(writes_view(out@) =~= writes_view(old(out)@).push(end_row_spec));
        }
        let other_idx: usize = 1 - idx;
        let other_track = Self::clone_opt(&self.slot(other_idx).track_id);
        let other_since = self.slot(other_idx).playing_since_ms;
        let to_track = match (other_track, other_since) {
            (Some(t), Some(_)) => t,
            _ => {
                return;
            },
        };
        if to_track == track_id {
            return;
        }
        if played < MIN_TRANSITION_PLAY_MS {
            return;
        }
        let same_edge = match &self.last_transition {
            Some((a, b)) => *a == track_id && *b == to_track,
            None => false,
        };
        if same_edge {
            return;
        }
        let ghost rows = end_segment(s0, idx as int, timestamp_ms).1;
        out.push(
            HistoryWrite {
                track_id: track_id.clone(),
                deck: idx as u32,
                event: HistoryEventType::TransitionOut,
                timestamp_ms,
                duration_played_ms: None,
                from_track_id: Some(track_id.clone()),
                to_track_id: Some(to_track.clone()),
            },
        );
        out.push(
            HistoryWrite {
                track_id: to_track.clone(),
                deck: other_idx as u32,
                event: HistoryEventType::TransitionIn,
                timestamp_ms,
                duration_played_ms: None,
                from_track_id: Some(track_id.clone()),
                to_track_id: Some(to_track.clone()),
            },
        );
        proof {
            assert(writes_view(out@) =~= writes_view(old(out)@) + rows);
        }
        self.last_transition = Some((track_id, to_track));
    }

    /// A library track was loaded onto `deck`, replacing whatever was there.
    /// If the deck was mid-play, the old track's segment ends first (which
    /// may commit a handover) and the new track's segment opens at once (the
    /// engine keeps the transport running across the swap).
    pub fn deck_loaded(&mut self, deck: u32, track_id: &str, timestamp_ms: i64) -> (w: Vec<HistoryWrite>)
        requires
            old(self).wf(),
            deck < 2 ==> end_fits(old(self)@, deck as int, timestamp_ms),
        ensures
            final(self).wf(),
            final(self).spec_session_id() == old(self).spec_session_id(),
            final(self)@ == deck_loaded_spec(old(self)@, deck, track_id@, timestamp_ms).0,
            writes_view(w@) == deck_loaded_spec(old(self)@, deck, track_id@, timestamp_ms).1,
    {
        if deck >= 2 {
            return Vec::new();
        }
        let idx = deck as usize;
        let mut out: Vec<HistoryWrite> = Vec::new();
        let was_playing = self.slot(idx).playing_since_ms.is_some();
        self.end_segment(idx, timestamp_ms, &mut out);
        let ghost mid = self@;
        let ghost rows = writes_view(out@);
        self.set_slot(
            idx,
            DeckSlot {
                track_id: Some(String::from_str(track_id)),
                playing_since_ms: if was_playing {
                    Some(timestamp_ms)
                } else {
                    None
                },
                played_ms_since_load: 0,
            },
        );
        out.push(
            HistoryWrite {
                track_id: String::from_str(track_id),
                deck,
                event: HistoryEventType::Load,
                timestamp_ms,
                duration_played_ms: None,
                from_track_id: None,
                to_track_id: None,
            },
        );
        if was_playing {
            out.push(
                HistoryWrite {
                    track_id: String::from_str(track_id),
                    deck,
                    event: HistoryEventType::PlayStart,
                    timestamp_ms,
                    duration_played_ms: None,
                    from_track_id: None,
                    to_track_id: None,
                },
            );
            proof {
                assert(writes_view(out@) =~= rows.push(
                    plain_row(track_id@, deck, HistoryEventType::Load, timestamp_ms),
                ).push(plain_row(track_id@, deck, HistoryEventType::PlayStart, timestamp_ms)));
            }
        } else {
            proof {
                assert(writes_view(out@) =~= rows.push(
                    plain_row(track_id@, deck, HistoryEventType::Load, timestamp_ms),
                ));
            }
        }
        out
    }

    /// The deck no longer holds a library track: ends any open segment and
    /// empties the slot; emits no row of its own.
    pub fn deck_unloaded(&mut self, deck: u32, timestamp_ms: i64) -> (w: Vec<HistoryWrite>)
        requires
            old(self).wf(),
            deck < 2 ==> end_fits(old(self)@, deck as int, timestamp_ms),
        ensures
            final(self).wf(),
            final(self).spec_session_id() == old(self).spec_session_id(),
            final(self)@ == deck_unloaded_spec(old(self)@, deck, timestamp_ms).0,
            writes_view(w@) == deck_unloaded_spec(old(self)@, deck, timestamp_ms).1,
    {
        if deck >= 2 {
            return Vec::new();
        }
        let idx = deck as usize;
        let mut out: Vec<HistoryWrite> = Vec::new();
        proof {
            assert(writes_view(out@) =~= Seq::<WriteSpec>::empty());
        }
        self.end_segment(idx, timestamp_ms, &mut out);
        self.set_slot(idx, DeckSlot::empty());
        proof {
            assert(writes_view(out@) =~= Seq::<WriteSpec>::empty() + end_segment(
                old(self)@,
                idx as int,
                timestamp_ms,
            ).1);
        }
        out
    }

    /// The deck's transport flipped to playing. No-op when the deck holds no
    /// library track or is already playing (the shell reports edges from a
    /// polled snapshot).
    pub fn play_started(&mut self, deck: u32, timestamp_ms: i64) -> (w: Vec<HistoryWrite>)
        requires
            old(self).wf(),
        ensures
            final(self).wf(),
            final(self).spec_session_id() == old(self).spec_session_id(),
            final(self)@ == play_started_spec(old(self)@, deck, timestamp_ms).0,
            writes_view(w@) == play_started_spec(old(self)@, deck, timestamp_ms).1,
    {
        if deck >= 2 {
            return Vec::new();
        }
        let idx = deck as usize;
        let track = Self::clone_opt(&self.slot(idx).track_id);
        let track_id = match track {
            Some(t) => t,
            None => {
                return Vec::new();
            },
        };
        if self.slot(idx).playing_since_ms.is_some() {
            return Vec::new();
        }
        let kept = Self::clone_opt(&self.slot(idx).track_id);
        let played = self.slot(idx).played_ms_since_load;
        self.set_slot(
            idx,
            DeckSlot {
                track_id: kept,
                playing_since_ms: Some(timestamp_ms),
                played_ms_since_load: played,
            },
        );
        let w = vec![
            HistoryWrite {
                track_id,
                deck,
                event: HistoryEventType::PlayStart,
                timestamp_ms,
                duration_played_ms: None,
                from_track_id: None,
                to_track_id: None,
            },
        ];
        proof {
            assert(writes_view(w@) =~= play_started_spec(old(self)@, deck, timestamp_ms).1);
        }
        w
    }

    /// The deck's transport flipped to stopped: closes the open segment and
    /// runs the handover check.
    pub fn play_ended(&mut self, deck: u32, timestamp_ms: i64) -> (w: Vec<HistoryWrite>)
        requires
            old(self).wf(),
            deck < 2 ==> end_fits(old(self)@, deck as int, timestamp_ms),
        ensures
            final(self).wf(),
            final(self).spec_session_id() == old(self).spec_session_id(),
            final(self)@ == play_ended_spec(old(self)@, deck, timestamp_ms).0,
            writes_view(w@) == play_ended_spec(old(self)@, deck, timestamp_ms).1,
    {
        if deck >= 2 {
            return Vec::new();
        }
        let mut out: Vec<HistoryWrite> = Vec::new();
        proof {
            assert(writes_view(out@) =~= Seq::<WriteSpec>::empty());
        }
        self.end_segment(deck as usize, timestamp_ms, &mut out);
        proof {
            assert(writes_view(out@) =~= Seq::<WriteSpec>::empty() + end_segment(
                old(self)@,
                deck as int,
                timestamp_ms,
            ).1);
        }
        out
    }
}

impl Default for SessionTracker {
    fn default() -> (t: SessionTracker)
        ensures
            t.wf(),
            t@ == initial_state(),
    {
        SessionTracker::new()
    }
}

} // verus!
