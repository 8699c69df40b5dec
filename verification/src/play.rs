//! Decisions of a play session: which note a key press hits, which notes
//! have passed unhit, when a hell-charge note heals, and the session's
//! phase from loading to leaving.
//!
//! Times are microseconds of play time.

use vstd::prelude::*;

use crate::chart::{ChartNote, EventBody, LaneKey, NoteType};
use crate::judge::{abs, judge, judge_spec, JudgeDir, JudgeWindows, Judgement};
use crate::lane::{LaneStates, LnKind, LnState};

verus! {

/// What a key press does.
#[derive(Debug, Clone, Copy, PartialEq, Eq, Structural)]
pub enum PressOutcome {
    /// It hits note `note` with this judgement, early or late.
    Hit { note: usize, judgement: Judgement, dir: JudgeDir },
    /// It is early for a note (an air POOR).
    AirPoor,
    /// It concerns no note.
    Nothing,
}

/// Offset of a press at `now_us` from note `n` (negative = early).
pub open spec fn delta_of(n: ChartNote, now_us: int) -> int {
    now_us - n.time_us
}

/// Note `i` is on lane `key` and still to be played.
pub open spec fn pressable(notes: Seq<ChartNote>, consumed: Seq<bool>, key: LaneKey, i: int) -> bool {
    0 <= i < notes.len() && notes[i].key == key && !consumed[i]
}

/// A press at `now_us` is inside the BAD window of note `n`.
pub open spec fn in_hit_window(n: ChartNote, now_us: int, w: JudgeWindows) -> bool {
    let d = delta_of(n, now_us);
    -(w.bd_ms * 1000) <= d <= w.bd_ms * 1000
}

/// A press at `now_us` is early for note `n`: before its BAD window, inside
/// its early-POOR window.
pub open spec fn in_early_window(n: ChartNote, now_us: int, w: JudgeWindows) -> bool {
    let d = delta_of(n, now_us);
    d < -(w.bd_ms * 1000) && d >= -(w.early_poor_ms * 1000)
}

/// Side of an offset: early before the note, late after it.
pub open spec fn dir_of(d: int) -> JudgeDir {
    if d < 0 {
        JudgeDir::Early
    } else if d > 0 {
        JudgeDir::Late
    } else {
        JudgeDir::Neutral
    }
}

/// Note `i` is the one a press hits: pressable, inside its window, and
/// closest to the press (the first one among equally close notes).
pub open spec fn is_hit_target(
    notes: Seq<ChartNote>,
    consumed: Seq<bool>,
    key: LaneKey,
    now_us: int,
    w: JudgeWindows,
    i: int,
) -> bool {
    &&& pressable(notes, consumed, key, i)
    &&& in_hit_window(notes[i], now_us, w)
    &&& forall|j: int|
        #![trigger notes[j]]
        pressable(notes, consumed, key, j) && in_hit_window(notes[j], now_us, w) ==> {
            &&& abs(delta_of(notes[i], now_us)) <= abs(delta_of(notes[j], now_us))
            &&& (j < i ==> abs(delta_of(notes[i], now_us)) < abs(delta_of(notes[j], now_us)))
        }
}

/// What a press on lane `key` at `now_us` does, given which notes are
/// already played (`consumed`).
pub open spec fn press_spec(
    notes: Seq<ChartNote>,
    consumed: Seq<bool>,
    key: LaneKey,
    now_us: int,
    w: JudgeWindows,
    r: PressOutcome,
) -> bool {
    match r {
        PressOutcome::Hit { note, judgement, dir } => {
            &&& is_hit_target(notes, consumed, key, now_us, w, note as int)
            &&& judge_spec(delta_of(notes[note as int], now_us), w) == Some(judgement)
            &&& dir == dir_of(delta_of(notes[note as int], now_us))
        },
        PressOutcome::AirPoor => {
            &&& forall|j: int|
                #![trigger notes[j]]
                pressable(notes, consumed, key, j) ==> !in_hit_window(notes[j], now_us, w)
            &&& exists|j: int|
                #![trigger notes[j]]
                pressable(notes, consumed, key, j) && in_early_window(notes[j], now_us, w)
        },
        PressOutcome::Nothing => forall|j: int|
            #![trigger notes[j]]
            pressable(notes, consumed, key, j) ==> !in_hit_window(notes[j], now_us, w)
                && !in_early_window(notes[j], now_us, w),
    }
}

/// Absolute value of an offset that fits in `i128`.
fn abs_i128(x: i128) -> (r: i128)
    requires
        x > i128::MIN,
    ensures
        r == abs(x as int),
{
    if x < 0 {
        -x
    } else {
        x
    }
}

/// Judges a press on lane `key` at `now_us`: the closest still-unplayed
/// note of the lane inside its BAD window is hit (the earlier one on a tie);
/// failing that, a note whose early-POOR window holds the press gives an
/// air POOR; else nothing happens.
pub fn press_target(
    notes: &Vec<ChartNote>,
    consumed: &Vec<bool>,
    key: LaneKey,
    now_us: i64,
    w: &JudgeWindows,
) -> (r: PressOutcome)
    requires
        consumed@.len() == notes@.len(),
        w.bd_ms * 1000 <= i64::MAX,
    ensures
        press_spec(notes@, consumed@, key, now_us as int, *w, r),
{
    let bd: i128 = (w.bd_ms as i128) * 1000;
    let ep: i128 = (w.early_poor_ms as i128) * 1000;
    let mut hit: Option<usize> = None;
    let mut hit_abs: i128 = 0;
    let mut early = false;
    let mut i: usize = 0;
    while i < notes.len()
        invariant
            0 <= i <= notes@.len(),
            consumed@.len() == notes@.len(),
            bd == w.bd_ms * 1000,
            ep == w.early_poor_ms * 1000,
            match hit {
                Some(h) => {
                    &&& h < i
                    &&& pressable(notes@, consumed@, key, h as int)
                    &&& in_hit_window(notes@[h as int], now_us as int, *w)
                    &&& hit_abs == abs(delta_of(notes@[h as int], now_us as int))
                    &&& forall|j: int|
                        #![trigger notes@[j]]
                        0 <= j < i && pressable(notes@, consumed@, key, j) && in_hit_window(
                            notes@[j],
                            now_us as int,
                            *w,
                        ) ==> {
                            &&& hit_abs <= abs(delta_of(notes@[j], now_us as int))
                            &&& (j < h ==> hit_abs < abs(delta_of(notes@[j], now_us as int)))
                        }
                },
                None => forall|j: int|
                    #![trigger notes@[j]]
                    0 <= j < i && pressable(notes@, consumed@, key, j) ==> !in_hit_window(
                        notes@[j],
                        now_us as int,
                        *w,
                    ),
            },
            early <==> exists|j: int|
                #![trigger notes@[j]]
                0 <= j < i && pressable(notes@, consumed@, key, j) && in_early_window(
                    notes@[j],
                    now_us as int,
                    *w,
                ),
        decreases notes.len() - i,
    {
        let n = notes[i];
        if n.key == key && !consumed[i] {
            let d: i128 = (now_us as i128) - (n.time_us as i128);
            let a = abs_i128(d);
            if -bd <= d && d <= bd {
                let better = match hit {
                    Some(_) => a < hit_abs,
                    None => true,
                };
                if better {
                    hit = Some(i);
                    hit_abs = a;
                }
            } else if d < -bd && d >= -ep {
                early = true;
            }
        }
        i = i + 1;
    }
    match hit {
        Some(h) => {
            let n = notes[h];
            let d128: i128 = (now_us as i128) - (n.time_us as i128);
            let d: i64 = d128 as i64;
            let j = judge(d, w);
            let dir = if d < 0 {
                JudgeDir::Early
            } else if d > 0 {
                JudgeDir::Late
            } else {
                JudgeDir::Neutral
            };
            match j {
                Some(judgement) => PressOutcome::Hit { note: h, judgement, dir },
                None => PressOutcome::Nothing,
            }
        },
        None => {
            if early {
                PressOutcome::AirPoor
            } else {
                PressOutcome::Nothing
            }
        },
    }
}

/// Grace after the BAD window before an unhit note counts as missed (µs).
pub const MISS_GRACE_US: i64 = 50_000;

/// A note judged at `time_us` has passed unhit by `now_us`: later than its
/// BAD window plus the grace.
pub open spec fn missed_spec(time_us: int, now_us: int, w: JudgeWindows) -> bool {
    now_us - time_us > w.bd_ms * 1000 + MISS_GRACE_US
}

/// Whether a note judged at `time_us` has passed unhit by `now_us`.
pub fn is_missed(time_us: i64, now_us: i64, w: &JudgeWindows) -> (b: bool)
    ensures
        b == missed_spec(time_us as int, now_us as int, *w),
{
    (now_us as i128) - (time_us as i128) > (w.bd_ms as i128) * 1000 + (MISS_GRACE_US as i128)
}

/// Note `i` counts as missed at `now_us`: unplayed, not held as the head of
/// an active long note, and passed.
pub open spec fn miss_at(notes: Seq<ChartNote>, consumed: Seq<bool>, lanes: LaneStates, now_us: int, w: JudgeWindows, i: int) -> bool {
    &&& 0 <= i < notes.len()
    &&& !consumed[i]
    &&& !(exists|k: int| 0 <= k < lanes.entries().len() && (#[trigger] lanes.entries()[k]).1.ln.processing == Some(i as usize))
    &&& missed_spec(notes[i].time_us as int, now_us, w)
}

/// The notes that have passed unhit at `now_us` (each a POOR), in order.
pub fn missed_notes(notes: &Vec<ChartNote>, consumed: &Vec<bool>, lanes: &LaneStates, now_us: i64, w: &JudgeWindows) -> (r: Vec<usize>)
    requires
        consumed@.len() == notes@.len(),
    ensures
        forall|a: int, b: int| 0 <= a < b < r@.len() ==> r@[a] < r@[b],
        forall|i: int| 0 <= i < notes@.len() ==> (r@.contains(i as usize) <==> miss_at(notes@, consumed@, *lanes, now_us as int, *w, i)),
        forall|a: int| 0 <= a < r@.len() ==> r@[a] < notes@.len(),
{
    let mut out: Vec<usize> = Vec::new();
    let mut i: usize = 0;
    while i < notes.len()
        invariant
            0 <= i <= notes@.len(),
            consumed@.len() == notes@.len(),
            forall|a: int, b: int| 0 <= a < b < out@.len() ==> out@[a] < out@[b],
            forall|a: int| 0 <= a < out@.len() ==> out@[a] < i,
            forall|j: int| 0 <= j < i ==> (out@.contains(j as usize) <==> miss_at(notes@, consumed@, *lanes, now_us as int, *w, j)),
        decreases notes.len() - i,
    {
        let m = !consumed[i] && !lanes.holds_note(i) && is_missed(notes[i].time_us, now_us, w);
        assert(m == miss_at(notes@, consumed@, *lanes, now_us as int, *w, i as int));
        let ghost before = out@;
        if m {
            out.push(i);
        }
        proof {
            assert forall|j: int| 0 <= j < i + 1 implies (out@.contains(j as usize) <==> miss_at(notes@, consumed@, *lanes, now_us as int, *w, j)) by {
                if out@.contains(j as usize) {
                    let k = choose|k: int| 0 <= k < out@.len() && out@[k] == j as usize;
                    if k < before.len() {
                        assert(before[k] == j as usize);
                        assert(before.contains(j as usize));
                    }
                }
                if j < i && before.contains(j as usize) {
                    let k = choose|k: int| 0 <= k < before.len() && before[k] == j as usize;
                    assert(out@[k] == j as usize);
                }
                if j == i && m {
                    assert(out@[before.len() as int] == i);
                }
                if j == i && before.contains(j as usize) {
                    let k = choose|k: int| 0 <= k < before.len() && before[k] == j as usize;
                    assert(before[k] < i);
                }
            }
        }
        i = i + 1;
    }
    out
}

/// Interval between two heals of a held hell-charge note (µs).
pub const HEAL_INTERVAL_US: i64 = 200_000;

/// A held long note heals the gauge at `now_us`: it is a hell-charge note
/// and the last heal is at least the heal interval ago.
pub open spec fn heal_due_spec(ln: LnState, now_us: int) -> bool {
    ln.kind == LnKind::HellChargeNote && now_us - ln.last_heal_us >= HEAL_INTERVAL_US
}

/// Whether the active long note of a lane heals the gauge at `now_us`.
pub fn heal_due(ln: &LnState, now_us: i64) -> (b: bool)
    ensures
        b == heal_due_spec(*ln, now_us as int),
{
    match ln.kind {
        LnKind::HellChargeNote => (now_us as i128) - (ln.last_heal_us as i128) >= (HEAL_INTERVAL_US as i128),
        _ => false,
    }
}

/// What to do with a chart event as it fires.
#[derive(Debug, Clone, Copy, PartialEq, Eq, Structural)]
pub enum FiredAction {
    /// Play this sound (if any).
    Sound(Option<usize>),
    /// Auto play: play this sound and judge the note a PGREAT.
    AutoHit(Option<usize>),
    /// Nothing.
    Ignore,
}

/// The action for a fired event: a hidden 1P note plays its sound; in auto
/// play any other 1P note is hit; a background sound plays.
pub open spec fn fired_spec(body: EventBody, auto: bool) -> FiredAction {
    match body {
        EventBody::Note { player1, kind, wav_id, .. } => if player1 && kind == NoteType::Invisible {
            FiredAction::Sound(wav_id)
        } else if player1 && auto {
            FiredAction::AutoHit(wav_id)
        } else {
            FiredAction::Ignore
        },
        EventBody::Bgm { wav_id } => FiredAction::Sound(wav_id),
        EventBody::Other => FiredAction::Ignore,
    }
}

/// The action for a fired event (see [`fired_spec`]).
pub fn fired_action(body: &EventBody, auto: bool) -> (a: FiredAction)
    ensures
        a == fired_spec(*body, auto),
{
    match *body {
        EventBody::Note { player1, kind, wav_id, .. } => {
            let hidden = match kind {
                NoteType::Invisible => true,
                _ => false,
            };
            if player1 && hidden {
                FiredAction::Sound(wav_id)
            } else if player1 && auto {
                FiredAction::AutoHit(wav_id)
            } else {
                FiredAction::Ignore
            }
        },
        EventBody::Bgm { wav_id } => FiredAction::Sound(wav_id),
        EventBody::Other => FiredAction::Ignore,
    }
}

/// Phase of a play session.
#[derive(Debug, Clone, Copy, PartialEq, Eq, Structural)]
pub enum Phase {
    /// Waiting for the first sounds to decode.
    Loading,
    /// Playing.
    Playing,
    /// Chart finished; waiting for the background music to end.
    Exiting,
}

/// Phase and auto-play flag of a session.
#[derive(Debug, Clone, Copy, PartialEq, Eq, Structural)]
pub struct SessionFlags {
    pub phase: Phase,
    pub auto: bool,
}

/// What a frame does after reading its input.
#[derive(Debug, Clone, Copy, PartialEq, Eq, Structural)]
pub enum TickStart {
    /// Back to song select (stopping all sound first when `stop_audio`).
    Leave { stop_audio: bool },
    /// Nothing more this frame.
    Hold,
    /// Advance the chart and judge (starting the song clock first when
    /// `begin_song`).
    Run { begin_song: bool },
}

/// Longest wait for the background music after the chart ends (µs).
pub const EXIT_TIMEOUT_US: i64 = 5_000_000;

/// Frame input of [`tick_start`].
#[derive(Debug, Clone, Copy, PartialEq, Eq, Structural)]
pub struct TickInput {
    /// The chart failed to load.
    pub load_failed: bool,
    /// Some sound is still playing.
    pub audio_playing: bool,
    /// Time since the chart ended (µs).
    pub since_exit_us: i64,
    /// Escape was pressed.
    pub escape: bool,
    /// The auto-play toggle was pressed.
    pub toggle_auto: bool,
    /// The first sounds are decoded.
    pub audio_ready: bool,
}

/// The decision of the start of a frame, and the session after it.
pub open spec fn tick_start_spec(s: SessionFlags, i: TickInput) -> (SessionFlags, TickStart) {
    if i.load_failed {
        (s, TickStart::Leave { stop_audio: false })
    } else if s.phase == Phase::Exiting {
        if !i.audio_playing || i.since_exit_us > EXIT_TIMEOUT_US {
            (s, TickStart::Leave { stop_audio: true })
        } else {
            (s, TickStart::Hold)
        }
    } else if i.escape {
        (s, TickStart::Leave { stop_audio: s.phase != Phase::Loading })
    } else {
        let auto = if i.toggle_auto { !s.auto } else { s.auto };
        if s.phase == Phase::Loading {
            if i.audio_ready {
                (SessionFlags { phase: Phase::Playing, auto }, TickStart::Run { begin_song: true })
            } else {
                (SessionFlags { phase: Phase::Loading, auto }, TickStart::Hold)
            }
        } else {
            (SessionFlags { phase: s.phase, auto }, TickStart::Run { begin_song: false })
        }
    }
}

/// Start of a frame: a failed load leaves; after the chart ends, leave once
/// the music stops or the wait times out; Escape leaves (stopping the sound
/// unless still loading); the auto toggle flips auto play; while loading,
/// the song starts once the first sounds are ready.
pub fn tick_start(s: &mut SessionFlags, i: &TickInput) -> (r: TickStart)
    ensures
        (*final(s), r) == tick_start_spec(*old(s), *i),
{
    if i.load_failed {
        return TickStart::Leave { stop_audio: false };
    }
    if s.phase == Phase::Exiting {
        if !i.audio_playing || i.since_exit_us > EXIT_TIMEOUT_US {
            return TickStart::Leave { stop_audio: true };
        }
        return TickStart::Hold;
    }
    if i.escape {
        let loading = s.phase == Phase::Loading;
        return TickStart::Leave { stop_audio: !loading };
    }
    if i.toggle_auto {
        s.auto = !s.auto;
    }
    if s.phase == Phase::Loading {
        if i.audio_ready {
            s.phase = Phase::Playing;
            return TickStart::Run { begin_song: true };
        }
        return TickStart::Hold;
    }
    TickStart::Run { begin_song: false }
}

/// What a frame does after the chart events were handled.
#[derive(Debug, Clone, Copy, PartialEq, Eq, Structural)]
pub enum TickEnd {
    /// The gauge is empty: stop all sound and go back to song select.
    Fail,
    /// The chart is over: wait for the music (the session is now exiting).
    Finish,
    /// Go on playing.
    Continue,
}

/// Time after the last event after which the chart counts as over (µs).
pub const END_MARGIN_US: i64 = 3_000_000;

/// The decision of the end of a frame, and the session after it.
pub open spec fn tick_end_spec(s: SessionFlags, gauge_failed: bool, judged: int, note_count: int, elapsed_us: int, total_us: int) -> (SessionFlags, TickEnd) {
    if gauge_failed {
        (s, TickEnd::Fail)
    } else if judged >= note_count || elapsed_us > total_us + END_MARGIN_US {
        (SessionFlags { phase: Phase::Exiting, ..s }, TickEnd::Finish)
    } else {
        (s, TickEnd::Continue)
    }
}

/// End of a frame: an empty gauge fails; once every note is judged, or the
/// time passes the last event by the margin, the chart is over.
pub fn tick_end(s: &mut SessionFlags, gauge_failed: bool, judged: u32, note_count: usize, elapsed_us: i64, total_us: i64) -> (r: TickEnd)
    ensures
        (*final(s), r) == tick_end_spec(*old(s), gauge_failed, judged as int, note_count as int, elapsed_us as int, total_us as int),
{
    if gauge_failed {
        return TickEnd::Fail;
    }
    if (judged as u128) >= (note_count as u128) || (elapsed_us as i128) > (total_us as i128) + (END_MARGIN_US as i128) {
        s.phase = Phase::Exiting;
        return TickEnd::Finish;
    }
    TickEnd::Continue
}

/// Once the chart is over, no frame judges again: an exiting session only
/// holds or leaves.
pub proof fn lemma_exiting_never_runs(s: SessionFlags, i: TickInput)
    requires
        s.phase == Phase::Exiting,
    ensures
        tick_start_spec(s, i).0 == s,
        !(tick_start_spec(s, i).1 is Run),
{
}

/// The song clock starts only on the frame that leaves loading.
pub proof fn lemma_song_begins_once(s: SessionFlags, i: TickInput)
    ensures
        tick_start_spec(s, i).1 == (TickStart::Run { begin_song: true }) <==> (s.phase == Phase::Loading
            && tick_start_spec(s, i).0.phase == Phase::Playing),
{
}

/// While loading, nothing is judged and the sound is never stopped.
pub proof fn lemma_loading_stops_nothing(s: SessionFlags, i: TickInput)
    requires
        s.phase == Phase::Loading,
    ensures
        tick_start_spec(s, i).1 != (TickStart::Leave { stop_audio: true }),
        tick_start_spec(s, i).1 != (TickStart::Run { begin_song: false }),
{
}

/// A press never both hits a note and is counted early: a hit note lies in
/// its BAD window, an air POOR needs every pressable note outside it.
pub proof fn lemma_press_outcomes_exclusive(notes: Seq<ChartNote>, consumed: Seq<bool>, key: LaneKey, now_us: int, w: JudgeWindows, r: PressOutcome)
    requires
        press_spec(notes, consumed, key, now_us, w, r),
        r is AirPoor || r is Nothing,
    ensures
        forall|j: int| #![trigger notes[j]] pressable(notes, consumed, key, j) ==> !in_hit_window(notes[j], now_us, w),
{
}


/// A hidden 1P note that fires only plays its key sound, whether or not auto
/// play is on: it is never judged. Auto play judges only visible 1P notes.
pub proof fn lemma_hidden_notes_only_sound(body: EventBody, auto: bool)
    ensures
        body matches EventBody::Note { player1: true, kind: NoteType::Invisible, wav_id, .. } ==> fired_spec(body, auto)
            == FiredAction::Sound(wav_id),
        fired_spec(body, auto) matches FiredAction::AutoHit(w) ==> auto && (body matches EventBody::Note {
            player1: true,
            kind,
            wav_id,
            ..
        } && kind != NoteType::Invisible && w == wav_id),
{
}

/// What each fired event does: a background sound plays its sound; a
/// visible 1P note is hit by auto play (and otherwise left to the player);
/// 2P notes and other events do nothing.
pub proof fn lemma_fired_events(body: EventBody, auto: bool)
    ensures
        body matches EventBody::Bgm { wav_id } ==> fired_spec(body, auto) == FiredAction::Sound(wav_id),
        body matches EventBody::Note { player1: true, kind, wav_id, .. } ==> (kind != NoteType::Invisible ==> fired_spec(
            body,
            auto,
        ) == if auto { FiredAction::AutoHit(wav_id) } else { FiredAction::Ignore }),
        body matches EventBody::Note { player1: false, .. } ==> fired_spec(body, auto) == FiredAction::Ignore,
        body is Other ==> fired_spec(body, auto) == FiredAction::Ignore,
{
}

/// How a frame can leave: a failed load leaves at once without touching the
/// sound; after the chart, the session leaves once the music stops or the
/// wait runs out, and holds until then; Escape leaves, stopping the sound
/// unless still loading. Leaving never changes the session flags, and the
/// song begins only on the frame that leaves loading with the sounds ready.
pub proof fn lemma_tick_start_leaves(s: SessionFlags, i: TickInput)
    ensures
        i.load_failed ==> tick_start_spec(s, i) == (s, TickStart::Leave { stop_audio: false }),
        !i.load_failed && s.phase == Phase::Exiting ==> tick_start_spec(s, i) == (s, if !i.audio_playing || i.since_exit_us
            > EXIT_TIMEOUT_US {
            TickStart::Leave { stop_audio: true }
        } else {
            TickStart::Hold
        }),
        !i.load_failed && s.phase != Phase::Exiting && i.escape ==> tick_start_spec(s, i) == (s, TickStart::Leave {
            stop_audio: s.phase != Phase::Loading,
        }),
        tick_start_spec(s, i).1 == (TickStart::Run { begin_song: true }) <==> (!i.load_failed && s.phase == Phase::Loading
            && !i.escape && i.audio_ready),
{
}

/// Unless the load failed, the chart is over or Escape leaves, the auto-play
/// toggle flips auto play in every phase; the phase only moves from loading
/// to playing, once the first sounds are ready.
pub proof fn lemma_toggle_flips_auto(s: SessionFlags, i: TickInput)
    requires
        !i.load_failed,
        s.phase != Phase::Exiting,
        !i.escape,
    ensures
        tick_start_spec(s, i).0.auto == (s.auto != i.toggle_auto),
        tick_start_spec(s, i).0.phase == if s.phase == Phase::Loading && i.audio_ready {
            Phase::Playing
        } else {
            s.phase
        },
{
}
} // verus!
