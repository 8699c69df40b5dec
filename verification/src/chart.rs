//! Playable content of a processed chart: lanes, notes and event statistics.
//!
//! The chart events are read as plain values ([`ChartEventView`]): times in
//! microseconds, positions and lengths in millionths of a measure.

use vstd::prelude::*;

use crate::keybind::{BindTarget, PlayMode};

verus! {

broadcast use {vstd::seq_lib::group_seq_properties, vstd::seq_lib::group_to_multiset_ensures};

/// A lane position of a chart (1P side).
#[derive(Debug, Clone, Copy, PartialEq, Eq, Structural)]
pub enum LaneKey {
    /// Key `n` of the controller.
    Key(u8),
    /// Turntable `n`.
    Scratch(u8),
    /// Foot pedal (not played).
    FootPedal,
    /// Free-scratch zone (not played).
    FreeZone,
}

/// The lane key a binding target plays (the turntable is turntable 1).
pub open spec fn key_of_target(t: BindTarget) -> LaneKey {
    match t {
        BindTarget::Scratch => LaneKey::Scratch(1),
        BindTarget::Key(n) => LaneKey::Key(n),
    }
}

impl From<BindTarget> for LaneKey {
    fn from(t: BindTarget) -> (k: Self) {
        match t {
            BindTarget::Scratch => LaneKey::Scratch(1),
            BindTarget::Key(n) => LaneKey::Key(n),
        }
    }
}

impl vstd::std_specs::convert::FromSpecImpl<BindTarget> for LaneKey {
    open spec fn obeys_from_spec() -> bool {
        true
    }

    open spec fn from_spec(t: BindTarget) -> LaneKey {
        key_of_target(t)
    }
}

/// Kind of a note.
#[derive(Debug, Clone, Copy, PartialEq, Eq, Structural)]
pub enum NoteType {
    /// A normal note.
    Visible,
    /// A hidden note (plays its sound, never judged).
    Invisible,
    /// A long note.
    Long,
    /// A landmine.
    Landmine,
}

/// What a chart event does.
#[derive(Debug, Clone, Copy, PartialEq, Eq, Structural)]
pub enum EventBody {
    /// A note reaches the judgement line.
    Note { player1: bool, key: LaneKey, kind: NoteType, wav_id: Option<usize>, length_um: Option<i64> },
    /// A background sound starts.
    Bgm { wav_id: Option<usize> },
    /// Anything else (tempo, BGA, …).
    Other,
}

/// One event of a processed chart.
#[derive(Debug, Clone, Copy, PartialEq, Eq, Structural)]
pub struct ChartEventView {
    /// Event id (unique within a chart).
    pub id: usize,
    /// When it fires (µs from the start).
    pub time_us: i64,
    /// Where it lies (millionths of a measure).
    pub position_um: i64,
    /// What it does.
    pub body: EventBody,
}

/// A playable note.
#[derive(Debug, Clone, Copy, PartialEq, Eq, Structural)]
pub struct ChartNote {
    /// Id of the event that fires it.
    pub event_id: usize,
    /// Lane position.
    pub key: LaneKey,
    /// Note kind (never invisible).
    pub kind: NoteType,
    /// Key sound.
    pub wav_id: Option<usize>,
    /// Judgement time (µs).
    pub time_us: i64,
    /// Position (millionths of a measure).
    pub position_um: i64,
    /// Length of a long note (millionths of a measure); `None` otherwise.
    pub length_um: Option<i64>,
    /// Column: index of its key among the chart's lanes.
    pub lane: usize,
}

/// Column order: turntable first, then keys by number, anything else last.
pub open spec fn lane_rank(k: LaneKey) -> int {
    match k {
        LaneKey::Scratch(_) => 0,
        LaneKey::Key(n) => 1 + n,
        _ => 512,
    }
}

/// Whether a key is laid out as a lane (the pedal and the free zone are not).
pub open spec fn is_lane_key(k: LaneKey) -> bool {
    !(k is FootPedal) && !(k is FreeZone)
}

/// The 1P note key of an event, if it is one that gets a lane.
pub open spec fn lane_key_of(e: ChartEventView) -> Option<LaneKey> {
    match e.body {
        EventBody::Note { player1, key, .. } => if player1 && is_lane_key(key) {
            Some(key)
        } else {
            None
        },
        _ => None,
    }
}

/// Whether an event is a note that is played and judged (1P, on a lane, not hidden).
pub open spec fn is_playable(e: ChartEventView) -> bool {
    match e.body {
        EventBody::Note { player1, key, kind, .. } => player1 && is_lane_key(key) && kind != NoteType::Invisible,
        _ => false,
    }
}

/// Whether an event is a 1P note of any kind (key sounds).
pub open spec fn is_p1_note(e: ChartEventView) -> bool {
    match e.body {
        EventBody::Note { player1, .. } => player1,
        _ => false,
    }
}

/// Whether an event is a background sound.
pub open spec fn is_bgm(e: ChartEventView) -> bool {
    e.body is Bgm
}

/// No key occurs twice.
pub open spec fn distinct_keys(s: Seq<LaneKey>) -> bool {
    forall|i: int, j: int| 0 <= i < j < s.len() ==> s[i] != s[j]
}

/// Keys in column order.
pub open spec fn lanes_sorted(s: Seq<LaneKey>) -> bool {
    forall|i: int, j: int| 0 <= i <= j < s.len() ==> lane_rank(s[i]) <= lane_rank(s[j])
}

/// In the first `n` events key `a` shows up before key `b` first does.
pub open spec fn seen_before(events: Seq<ChartEventView>, n: int, a: LaneKey, b: LaneKey) -> bool {
    exists|j: int|
        0 <= j < n && #[trigger] lane_key_of(events[j]) == Some(a) && forall|q: int|
            0 <= q <= j ==> lane_key_of(#[trigger] events[q]) != Some(b)
}

/// Keys of the same rank come in the order the first `n` events first use
/// them.
pub open spec fn ties_by_appearance(lanes: Seq<LaneKey>, events: Seq<ChartEventView>, n: int) -> bool {
    forall|a: int, b: int|
        0 <= a < b < lanes.len() && lane_rank(#[trigger] lanes[a]) == lane_rank(#[trigger] lanes[b]) ==> seen_before(
            events,
            n,
            lanes[a],
            lanes[b],
        )
}

proof fn lemma_ties_grow(lanes: Seq<LaneKey>, events: Seq<ChartEventView>, n: int)
    requires
        ties_by_appearance(lanes, events, n),
    ensures
        ties_by_appearance(lanes, events, n + 1),
{
    assert forall|a: int, b: int|
        0 <= a < b < lanes.len() && lane_rank(#[trigger] lanes[a]) == lane_rank(#[trigger] lanes[b]) implies seen_before(
            events,
            n + 1,
            lanes[a],
            lanes[b],
        ) by {
        let j = choose|j: int|
            0 <= j < n && #[trigger] lane_key_of(events[j]) == Some(lanes[a]) && forall|q: int|
                0 <= q <= j ==> lane_key_of(#[trigger] events[q]) != Some(lanes[b]);
        assert(0 <= j < n + 1);
    }
}

proof fn lemma_ties_after_insert(events: Seq<ChartEventView>, i: int, old: Seq<LaneKey>, p: int, k: LaneKey)
    requires
        0 <= p <= old.len(),
        0 <= i < events.len(),
        ties_by_appearance(old, events, i),
        forall|m: int| p <= m < old.len() ==> lane_rank(#[trigger] old[m]) > lane_rank(k),
        forall|x: LaneKey|
            old.contains(x) <==> exists|j: int| 0 <= j < i && #[trigger] lane_key_of(events[j]) == Some(x),
        !old.contains(k),
    ensures
        ties_by_appearance(old.insert(p, k), events, i + 1),
{
    let new = old.insert(p, k);
    assert forall|a: int, b: int|
        0 <= a < b < new.len() && lane_rank(#[trigger] new[a]) == lane_rank(#[trigger] new[b]) implies seen_before(
            events,
            i + 1,
            new[a],
            new[b],
        ) by {
        if a == p {
            assert(new[b] == old[b - 1]);
        } else if b == p {
            assert(new[a] == old[a]);
            assert(old.contains(old[a]));
            let j = choose|j: int| 0 <= j < i && #[trigger] lane_key_of(events[j]) == Some(old[a]);
            assert forall|q: int| 0 <= q <= j implies lane_key_of(#[trigger] events[q]) != Some(k) by {
                if lane_key_of(events[q]) == Some(k) {
                    assert(old.contains(k));
                }
            }
            assert(0 <= j < i + 1 && lane_key_of(events[j]) == Some(new[a]));
        } else {
            let a2 = if a < p { a } else { a - 1 };
            let b2 = if b < p { b } else { b - 1 };
            assert(new[a] == old[a2]);
            assert(new[b] == old[b2]);
            assert(0 <= a2 < b2 < old.len());
            assert(lane_rank(old[a2]) == lane_rank(old[b2]));
            assert(seen_before(events, i, old[a2], old[b2]));
            let j = choose|j: int|
                0 <= j < i && #[trigger] lane_key_of(events[j]) == Some(old[a2]) && forall|q: int|
                    0 <= q <= j ==> lane_key_of(#[trigger] events[q]) != Some(old[b2]);
            assert(0 <= j < i + 1);
        }
    }
}

/// The column of key `k` among `lanes`.
pub open spec fn lane_pos(lanes: Seq<LaneKey>, k: LaneKey) -> int {
    choose|i: int| 0 <= i < lanes.len() && lanes[i] == k
}

/// The playable note of event `e`, in column `lanes`.
pub open spec fn note_of(e: ChartEventView, lanes: Seq<LaneKey>) -> ChartNote {
    match e.body {
        EventBody::Note { key, kind, wav_id, length_um, .. } => ChartNote {
            event_id: e.id,
            key: key,
            kind: kind,
            wav_id: wav_id,
            time_us: e.time_us,
            position_um: e.position_um,
            length_um: if kind == NoteType::Long { length_um } else { None },
            lane: lane_pos(lanes, key) as usize,
        },
        _ => arbitrary(),
    }
}

/// The playable notes of `events`, in event order.
pub open spec fn notes_of(events: Seq<ChartEventView>, lanes: Seq<LaneKey>) -> Seq<ChartNote>
    decreases events.len(),
{
    if events.len() == 0 {
        Seq::empty()
    } else {
        let rest = notes_of(events.drop_last(), lanes);
        if is_playable(events.last()) {
            rest.push(note_of(events.last(), lanes))
        } else {
            rest
        }
    }
}

/// Number of events of `events` that satisfy `p`.
pub open spec fn count_events(events: Seq<ChartEventView>, p: spec_fn(ChartEventView) -> bool) -> nat
    decreases events.len(),
{
    if events.len() == 0 {
        0
    } else {
        count_events(events.drop_last(), p) + if p(events.last()) { 1nat } else { 0nat }
    }
}

/// Latest firing time of `events` (0 when none is later).
pub open spec fn last_time(events: Seq<ChartEventView>) -> int
    decreases events.len(),
{
    if events.len() == 0 {
        0
    } else {
        let t = last_time(events.drop_last());
        if events.last().time_us > t {
            events.last().time_us as int
        } else {
            t
        }
    }
}

/// Notes ordered by event id.
pub open spec fn sorted_by_event(s: Seq<ChartNote>) -> bool {
    forall|i: int, j: int| 0 <= i <= j < s.len() ==> s[i].event_id <= s[j].event_id
}

/// Column order of a key.
fn lane_rank_of(k: LaneKey) -> (r: u16)
    ensures
        r == lane_rank(k),
{
    match k {
        LaneKey::Scratch(_) => 0,
        LaneKey::Key(n) => 1 + n as u16,
        _ => 512,
    }
}

/// The lane keys a chart uses: every 1P note key except the pedal and the
/// free zone, each once, turntable first and keys by number; keys of the
/// same rank (several turntables) in the order the chart first uses them.
pub fn collect_lanes(events: &Vec<ChartEventView>) -> (lanes: Vec<LaneKey>)
    ensures
        distinct_keys(lanes@),
        lanes_sorted(lanes@),
        ties_by_appearance(lanes@, events@, events@.len() as int),
        forall|k: LaneKey|
            lanes@.contains(k) <==> exists|i: int|
                0 <= i < events@.len() && #[trigger] lane_key_of(events@[i]) == Some(k),
{
    let mut lanes: Vec<LaneKey> = Vec::new();
    let mut i: usize = 0;
    while i < events.len()
        invariant
            0 <= i <= events.len(),
            distinct_keys(lanes@),
            lanes_sorted(lanes@),
            ties_by_appearance(lanes@, events@, i as int),
            forall|k: LaneKey|
                lanes@.contains(k) <==> exists|j: int|
                    0 <= j < i && #[trigger] lane_key_of(events@[j]) == Some(k),
        decreases events.len() - i,
    {
        let e = events[i];
        let key_opt: Option<LaneKey> = match e.body {
            EventBody::Note { player1, key, .. } => {
                let lane_key = match key {
                    LaneKey::FootPedal => false,
                    LaneKey::FreeZone => false,
                    _ => true,
                };
                if player1 && lane_key {
                    Some(key)
                } else {
                    None
                }
            },
            _ => None,
        };
        assert(key_opt == lane_key_of(events@[i as int]));
        let ghost before = lanes@;
        match key_opt {
            Some(k) => {
                let mut found = false;
                let mut j: usize = 0;
                while j < lanes.len()
                    invariant
                        0 <= j <= lanes.len(),
                        found <==> exists|m: int| 0 <= m < j && lanes@[m] == k,
                    decreases lanes.len() - j,
                {
                    if lanes[j] == k {
                        found = true;
                    }
                    j = j + 1;
                }
                if !found {
                    let rk = lane_rank_of(k);
                    let mut p: usize = 0;
                    while p < lanes.len() && lane_rank_of(lanes[p]) <= rk
                        invariant
                            0 <= p <= lanes.len(),
                            forall|m: int| 0 <= m < p ==> lane_rank(#[trigger] lanes@[m]) <= rk,
                        decreases lanes.len() - p,
                    {
                        p = p + 1;
                    }
                    proof {
                        assert(p < lanes.len() ==> lane_rank(lanes@[p as int]) > rk);
                    }
                    let ghost old_lanes = lanes@;
                    proof {
                        assert forall|m: int| p <= m < old_lanes.len() implies lane_rank(#[trigger] old_lanes[m]) > rk by {
                            assert(lane_rank(old_lanes[p as int]) <= lane_rank(old_lanes[m]));
                        }
                        if old_lanes.contains(k) {
                            let m = choose|m: int| 0 <= m < old_lanes.len() && old_lanes[m] == k;
                            assert(old_lanes[m] == k);
                        }
                        lemma_ties_after_insert(events@, i as int, old_lanes, p as int, k);
                    }
                    lanes.insert(p, k);
                    proof {
                        assert(lanes@ == old_lanes.insert(p as int, k));
                        assert forall|a: int, b: int| 0 <= a <= b < lanes@.len() implies lane_rank(
                            lanes@[a],
                        ) <= lane_rank(lanes@[b]) by {
                            if a < p && b > p {
                                assert(lanes@[b] == old_lanes[b - 1]);
                                assert(lanes@[a] == old_lanes[a]);
                            }
                        }
                        assert forall|x: LaneKey|
                            lanes@.contains(x) <==> (old_lanes.contains(x) || x == k) by {
                            if lanes@.contains(x) {
                                let m = choose|m: int| 0 <= m < lanes@.len() && lanes@[m] == x;
                                if m < p {
                                    assert(old_lanes[m] == x);
                                } else if m > p {
                                    assert(old_lanes[m - 1] == x);
                                }
                            }
                            if old_lanes.contains(x) {
                                let m = choose|m: int| 0 <= m < old_lanes.len() && old_lanes[m] == x;
                                if m < p {
                                    assert(lanes@[m] == x);
                                } else {
                                    assert(lanes@[m + 1] == x);
                                }
                            }
                            if x == k {
                                assert(lanes@[p as int] == x);
                            }
                        }
                    }
                } else {
                    proof {
                        assert(lanes@.contains(k));
                        lemma_ties_grow(lanes@, events@, i as int);
                    }
                }
            },
            None => {
                proof {
                    lemma_ties_grow(lanes@, events@, i as int);
                }
            },
        }
        assert(forall|x: LaneKey|
            lanes@.contains(x) <==> (before.contains(x) || key_opt == Some(x)));
        proof {
            assert forall|x: LaneKey|
                lanes@.contains(x) <==> exists|j: int|
                    0 <= j < i + 1 && #[trigger] lane_key_of(events@[j]) == Some(x) by {
                if exists|j: int| 0 <= j < i + 1 && #[trigger] lane_key_of(events@[j]) == Some(x) {
                    let j = choose|j: int| 0 <= j < i + 1 && #[trigger] lane_key_of(events@[j]) == Some(x);
                    if j < i {
                        assert(exists|j2: int| 0 <= j2 < i && #[trigger] lane_key_of(events@[j2]) == Some(x));
                    }
                }
                if before.contains(x) {
                    let j = choose|j: int| 0 <= j < i && #[trigger] lane_key_of(events@[j]) == Some(x);
                    assert(0 <= j < i + 1 && lane_key_of(events@[j]) == Some(x));
                }
                if key_opt == Some(x) {
                    assert(lane_key_of(events@[i as int]) == Some(x));
                }
            }
        }
        i = i + 1;
    }
    lanes
}

/// The column of `key` among `lanes`, if it has one.
pub fn lane_index(lanes: &Vec<LaneKey>, key: LaneKey) -> (r: Option<usize>)
    ensures
        r matches Some(i) ==> i < lanes@.len() && lanes@[i as int] == key && forall|j: int|
            0 <= j < i ==> lanes@[j] != key,
        r is None ==> !lanes@.contains(key),
{
    let mut i: usize = 0;
    while i < lanes.len()
        invariant
            0 <= i <= lanes.len(),
            forall|j: int| 0 <= j < i ==> lanes@[j] != key,
        decreases lanes.len() - i,
    {
        if lanes[i] == key {
            return Some(i);
        }
        i = i + 1;
    }
    None
}

/// Play mode of a chart: seven keys when it uses a key above 5, else five keys.
pub open spec fn play_mode_of(lanes: Seq<LaneKey>) -> PlayMode {
    if exists|i: int| 0 <= i < lanes.len() && (#[trigger] lanes[i] matches LaneKey::Key(n) && n > 5) {
        PlayMode::SevenKey
    } else {
        PlayMode::FiveKey
    }
}

/// Play mode of a chart with these lanes (highest key number ≤ 5 → five keys).
pub fn play_mode(lanes: &Vec<LaneKey>) -> (m: PlayMode)
    ensures
        m == play_mode_of(lanes@),
{
    let mut i: usize = 0;
    while i < lanes.len()
        invariant
            0 <= i <= lanes.len(),
            forall|j: int| 0 <= j < i ==> !(#[trigger] lanes@[j] matches LaneKey::Key(n) && n > 5),
        decreases lanes.len() - i,
    {
        match lanes[i] {
            LaneKey::Key(n) => {
                if n > 5 {
                    return PlayMode::SevenKey;
                }
            },
            _ => {},
        }
        i = i + 1;
    }
    PlayMode::FiveKey
}

/// The playable notes of a chart with event statistics.
#[derive(Debug, Clone)]
pub struct ChartNotes {
    /// Playable notes, in event order.
    pub notes: Vec<ChartNote>,
    /// Number of background-sound events.
    pub bgm_events: usize,
    /// Number of 1P note events of any kind (key sounds).
    pub keysound_events: usize,
    /// Latest event time (µs; 0 when none is later).
    pub last_time_us: i64,
}

/// Extracts the playable notes of `events`: 1P notes on a lane that are not
/// hidden, each with its column in `lanes`; and counts the events.
pub fn extract_notes(events: &Vec<ChartEventView>, lanes: &Vec<LaneKey>) -> (r: ChartNotes)
    requires
        distinct_keys(lanes@),
        forall|i: int|
            0 <= i < events@.len() && #[trigger] is_playable(events@[i]) ==> lanes@.contains(
                events@[i].body->key,
            ),
    ensures
        r.notes@ == notes_of(events@, lanes@),
        r.bgm_events == count_events(events@, |e: ChartEventView| is_bgm(e)),
        r.keysound_events == count_events(events@, |e: ChartEventView| is_p1_note(e)),
        r.last_time_us == last_time(events@),
{
    let mut notes: Vec<ChartNote> = Vec::new();
    let mut bgm: usize = 0;
    let mut keysound: usize = 0;
    let mut last: i64 = 0;
    let mut i: usize = 0;
    while i < events.len()
        invariant
            0 <= i <= events.len(),
            distinct_keys(lanes@),
            forall|j: int|
                0 <= j < events@.len() && #[trigger] is_playable(events@[j]) ==> lanes@.contains(
                    events@[j].body->key,
                ),
            notes@ == notes_of(events@.take(i as int), lanes@),
            bgm == count_events(events@.take(i as int), |e: ChartEventView| is_bgm(e)),
            keysound == count_events(events@.take(i as int), |e: ChartEventView| is_p1_note(e)),
            last == last_time(events@.take(i as int)),
            bgm <= i,
            keysound <= i,
        decreases events.len() - i,
    {
        let e = events[i];
        proof {
            let t = events@.take(i as int + 1);
            assert(t.drop_last() == events@.take(i as int));
            assert(t.last() == e);
        }
        if e.time_us > last {
            last = e.time_us;
        }
        match e.body {
            EventBody::Note { player1, key, kind, wav_id, length_um } => {
                if player1 {
                    keysound = keysound + 1;
                    let lane_key = match key {
                        LaneKey::FootPedal => false,
                        LaneKey::FreeZone => false,
                        _ => true,
                    };
                    let hidden = match kind {
                        NoteType::Invisible => true,
                        _ => false,
                    };
                    if lane_key && !hidden {
                        assert(is_playable(events@[i as int]));
                        let lane = lane_index(lanes, key);
                        match lane {
                            Some(col) => {
                                proof {
                                    assert(lane_pos(lanes@, key) == col as int) by {
                                        let c = lane_pos(lanes@, key);
                                        assert(0 <= c < lanes@.len() && lanes@[c] == key);
                                        if c != col as int {
                                            if c < col as int {
                                                assert(lanes@[c] != key);
                                            } else {
                                                assert(lanes@[col as int] != lanes@[c]);
                                            }
                                        }
                                    }
                                }
                                let long = match kind {
                                    NoteType::Long => true,
                                    _ => false,
                                };
                                notes.push(
                                    ChartNote {
                                        event_id: e.id,
                                        key: key,
                                        kind: kind,
                                        wav_id: wav_id,
                                        time_us: e.time_us,
                                        position_um: e.position_um,
                                        length_um: if long { length_um } else { None },
                                        lane: col,
                                    },
                                );
                            },
                            None => {},
                        }
                    }
                }
            },
            EventBody::Bgm { .. } => {
                bgm = bgm + 1;
            },
            EventBody::Other => {},
        }
        i = i + 1;
    }
    proof {
        assert(events@.take(events@.len() as int) == events@);
    }
    ChartNotes { notes, bgm_events: bgm, keysound_events: keysound, last_time_us: last }
}

/// Sorts notes by event id (stable insertion sort).
pub fn sort_by_event(notes: Vec<ChartNote>) -> (r: Vec<ChartNote>)
    ensures
        sorted_by_event(r@),
        r@.to_multiset() == notes@.to_multiset(),
{
    let mut out: Vec<ChartNote> = Vec::new();
    let mut i: usize = 0;
    while i < notes.len()
        invariant
            0 <= i <= notes.len(),
            sorted_by_event(out@),
            out@.to_multiset() == notes@.take(i as int).to_multiset(),
            out@.len() == i,
        decreases notes.len() - i,
    {
        let n = notes[i];
        let mut p: usize = out.len();
        while p > 0 && out[p - 1].event_id > n.event_id
            invariant
                0 <= p <= out.len(),
                forall|m: int| p <= m < out@.len() ==> (#[trigger] out@[m]).event_id > n.event_id,
            decreases p,
        {
            p = p - 1;
        }
        let ghost old_out = out@;
        proof {
            assert(p > 0 ==> out@[p - 1].event_id <= n.event_id);
        }
        out.insert(p, n);
        proof {
            assert(out@ == old_out.insert(p as int, n));
            vstd::seq_lib::to_multiset_insert(old_out, p as int, n);
            assert(notes@.take(i as int + 1) == notes@.take(i as int).push(n));
            vstd::seq_lib::to_multiset_build(notes@.take(i as int), n);
            assert forall|a: int, b: int| 0 <= a <= b < out@.len() implies out@[a].event_id
                <= out@[b].event_id by {
                if a < p && b > p {
                    assert(out@[b] == old_out[b - 1]);
                    assert(out@[a] == old_out[a]);
                } else if a < p && b == p {
                    assert(old_out[a].event_id <= old_out[p - 1].event_id);
                }
            }
        }
        i = i + 1;
    }
    proof {
        assert(notes@.take(notes@.len() as int) == notes@);
    }
    out
}

/// Index of the note fired by event `event_id` (binary search over notes
/// sorted by event id).
pub fn find_note(notes: &Vec<ChartNote>, event_id: usize) -> (r: Option<usize>)
    requires
        sorted_by_event(notes@),
    ensures
        r matches Some(i) ==> i < notes@.len() && notes@[i as int].event_id == event_id,
        r is None ==> forall|j: int| 0 <= j < notes@.len() ==> notes@[j].event_id != event_id,
{
    let mut lo: usize = 0;
    let mut hi: usize = notes.len();
    while lo < hi
        invariant
            0 <= lo <= hi <= notes@.len(),
            sorted_by_event(notes@),
            forall|j: int| 0 <= j < lo ==> notes@[j].event_id < event_id,
            forall|j: int| hi <= j < notes@.len() ==> notes@[j].event_id > event_id,
        decreases hi - lo,
    {
        let mid = lo + (hi - lo) / 2;
        let id = notes[mid].event_id;
        if id == event_id {
            return Some(mid);
        } else if id < event_id {
            lo = mid + 1;
        } else {
            hi = mid;
        }
    }
    None
}

/// Key sounds needed before `deadline_us`: the sound of every background
/// sound and 1P-or-2P note event firing no later than it, each once.
pub open spec fn early_wav(e: ChartEventView, deadline_us: int) -> Option<usize> {
    if e.time_us > deadline_us {
        None
    } else {
        match e.body {
            EventBody::Bgm { wav_id } => wav_id,
            EventBody::Note { wav_id, .. } => wav_id,
            EventBody::Other => None,
        }
    }
}

/// The sounds used by events firing no later than `deadline_us` (each once).
pub fn priority_wavs(events: &Vec<ChartEventView>, deadline_us: i64) -> (r: Vec<usize>)
    ensures
        forall|i: int, j: int| 0 <= i < j < r@.len() ==> r@[i] != r@[j],
        forall|w: usize|
            r@.contains(w) <==> exists|i: int|
                0 <= i < events@.len() && #[trigger] early_wav(events@[i], deadline_us as int) == Some(w),
{
    let mut out: Vec<usize> = Vec::new();
    let mut i: usize = 0;
    while i < events.len()
        invariant
            0 <= i <= events.len(),
            forall|a: int, b: int| 0 <= a < b < out@.len() ==> out@[a] != out@[b],
            forall|w: usize|
                out@.contains(w) <==> exists|j: int|
                    0 <= j < i && #[trigger] early_wav(events@[j], deadline_us as int) == Some(w),
        decreases events.len() - i,
    {
        let e = events[i];
        let wav: Option<usize> = if e.time_us > deadline_us {
            None
        } else {
            match e.body {
                EventBody::Bgm { wav_id } => wav_id,
                EventBody::Note { wav_id, .. } => wav_id,
                EventBody::Other => None,
            }
        };
        assert(wav == early_wav(events@[i as int], deadline_us as int));
        let ghost before = out@;
        match wav {
            Some(w) => {
                let mut found = false;
                let mut j: usize = 0;
                while j < out.len()
                    invariant
                        0 <= j <= out.len(),
                        found <==> exists|m: int| 0 <= m < j && out@[m] == w,
                    decreases out.len() - j,
                {
                    if out[j] == w {
                        found = true;
                    }
                    j = j + 1;
                }
                if !found {
                    out.push(w);
                    proof {
                        assert forall|x: usize| out@.contains(x) <==> (before.contains(x) || x == w) by {
                            if out@.contains(x) {
                                let m = choose|m: int| 0 <= m < out@.len() && out@[m] == x;
                                if m < before.len() {
                                    assert(before[m] == x);
                                }
                            }
                            if before.contains(x) {
                                let m = choose|m: int| 0 <= m < before.len() && before[m] == x;
                                assert(out@[m] == x);
                            }
                            if x == w {
                                assert(out@[before.len() as int] == x);
                            }
                        }
                    }
                } else {
                    assert(before.contains(w));
                }
            },
            None => {},
        }
        assert(forall|x: usize| out@.contains(x) <==> (before.contains(x) || wav == Some(x)));
        proof {
            assert forall|x: usize|
                out@.contains(x) <==> exists|j: int|
                    0 <= j < i + 1 && #[trigger] early_wav(events@[j], deadline_us as int) == Some(x) by {
                if exists|j: int| 0 <= j < i + 1 && #[trigger] early_wav(events@[j], deadline_us as int) == Some(x) {
                    let j = choose|j: int| 0 <= j < i + 1 && #[trigger] early_wav(events@[j], deadline_us as int) == Some(x);
                    if j < i {
                        assert(exists|j2: int| 0 <= j2 < i && #[trigger] early_wav(events@[j2], deadline_us as int) == Some(x));
                    }
                }
                if before.contains(x) {
                    let j = choose|j: int| 0 <= j < i && #[trigger] early_wav(events@[j], deadline_us as int) == Some(x);
                    assert(0 <= j < i + 1 && early_wav(events@[j], deadline_us as int) == Some(x));
                }
                if wav == Some(x) {
                    assert(early_wav(events@[i as int], deadline_us as int) == Some(x));
                }
            }
        }
        i = i + 1;
    }
    out
}


/// Whether an event is a background sound playing sound `w`.
pub open spec fn is_bgm_of(e: ChartEventView, w: usize) -> bool {
    e.body == (EventBody::Bgm { wav_id: Some(w) })
}

/// Whether a list of (sound, count) pairs has a pair for sound `w`.
pub open spec fn lists_sound(r: Seq<(usize, usize)>, w: usize) -> bool {
    exists|k: int| 0 <= k < r.len() && (#[trigger] r[k]).0 == w
}

/// Whether one of the first `n` events is a background sound playing `w`.
pub open spec fn bgm_uses(events: Seq<ChartEventView>, n: int, w: usize) -> bool {
    exists|j: int| 0 <= j < n && is_bgm_of(#[trigger] events[j], w)
}

/// Number of background-sound events of `events` playing sound `w`.
pub open spec fn bgm_count(events: Seq<ChartEventView>, w: usize) -> nat
    decreases events.len(),
{
    if events.len() == 0 {
        0
    } else {
        bgm_count(events.drop_last(), w) + if is_bgm_of(events.last(), w) { 1nat } else { 0nat }
    }
}

proof fn lemma_bgm_count_bound(events: Seq<ChartEventView>, w: usize)
    ensures
        bgm_count(events, w) <= events.len(),
    decreases events.len(),
{
    if events.len() > 0 {
        lemma_bgm_count_bound(events.drop_last(), w);
    }
}

/// How often each sound is played by background-sound events: (sound,
/// count) pairs, each sound once, in order of first use.
pub fn bgm_counts(events: &Vec<ChartEventView>) -> (r: Vec<(usize, usize)>)
    ensures
        forall|a: int, b: int| 0 <= a < b < r@.len() ==> r@[a].0 != r@[b].0,
        forall|w: usize| #[trigger] lists_sound(r@, w) <==> bgm_uses(events@, events@.len() as int, w),
        forall|k: int| 0 <= k < r@.len() ==> (#[trigger] r@[k]).1 == bgm_count(events@, r@[k].0),
{
    let mut out: Vec<(usize, usize)> = Vec::new();
    let mut i: usize = 0;
    while i < events.len()
        invariant
            0 <= i <= events@.len(),
            forall|a: int, b: int| 0 <= a < b < out@.len() ==> out@[a].0 != out@[b].0,
            forall|w: usize| #[trigger] lists_sound(out@, w) <==> bgm_uses(events@, i as int, w),
            forall|k: int| 0 <= k < out@.len() ==> (#[trigger] out@[k]).1 == bgm_count(events@.take(i as int), out@[k].0),
        decreases events.len() - i,
    {
        proof {
            assert(events@.take(i + 1).drop_last() =~= events@.take(i as int));
            assert(events@.take(i + 1).last() == events@[i as int]);
        }
        let wav: Option<usize> = match events[i].body {
            EventBody::Bgm { wav_id } => wav_id,
            _ => None,
        };
        match wav {
            Some(w) => {
                let mut k: usize = 0;
                let mut at: Option<usize> = None;
                while k < out.len()
                    invariant
                        0 <= k <= out@.len(),
                        at matches Some(m) ==> m < out@.len() && out@[m as int].0 == w,
                        at is None ==> forall|q: int| 0 <= q < k ==> out@[q].0 != w,
                    decreases out.len() - k,
                {
                    if at.is_none() && out[k].0 == w {
                        at = Some(k);
                    }
                    k = k + 1;
                }
                let ghost prev = out@;
                match at {
                    Some(m) => {
                        proof {
                            lemma_bgm_count_bound(events@.take(i as int), w);
                        }
                        let c = out[m].1;
                        out.set(m, (w, c + 1));
                        proof {
                            assert forall|q: int| 0 <= q < out@.len() implies (#[trigger] out@[q]).1 == bgm_count(events@.take(i + 1), out@[q].0) by {
                                if q != m {
                                    assert(prev[q].0 != w);
                                }
                            }
                            assert forall|x: usize| #[trigger] lists_sound(out@, x) <==> bgm_uses(events@, i + 1, x) by {
                                if exists|j: int| 0 <= j < i + 1 && is_bgm_of(#[trigger] events@[j], x) {
                                    let j = choose|j: int| 0 <= j < i + 1 && is_bgm_of(#[trigger] events@[j], x);
                                    if j == i {
                                        assert(out@[m as int].0 == x);
                                    } else {
                                        assert(lists_sound(prev, x));
                                        let q = choose|q: int| 0 <= q < prev.len() && (#[trigger] prev[q]).0 == x;
                                        if q == m {
                                            assert(out@[m as int].0 == x);
                                        } else {
                                            assert(out@[q].0 == x);
                                        }
                                    }
                                }
                                if exists|q: int| 0 <= q < out@.len() && (#[trigger] out@[q]).0 == x {
                                    let q = choose|q: int| 0 <= q < out@.len() && (#[trigger] out@[q]).0 == x;
                                    assert(prev[q].0 == x);
                                    assert(lists_sound(prev, x));
                                    assert(bgm_uses(events@, i as int, x));
                                    let j = choose|j: int| 0 <= j < i && is_bgm_of(#[trigger] events@[j], x);
                                    assert(0 <= j < i + 1);
                                }
                            }
                        }
                    },
                    None => {
                        out.push((w, 1));
                        proof {
                            assert forall|q: int| 0 <= q < out@.len() implies (#[trigger] out@[q]).1 == bgm_count(events@.take(i + 1), out@[q].0) by {
                                if q < prev.len() {
                                    assert(prev[q].0 != w);
                                    assert(out@[q] == prev[q]);
                                } else {
                                    assert(!lists_sound(prev, w));
                                    assert(!bgm_uses(events@, i as int, w));
                                    assert forall|j: int| 0 <= j < events@.take(i as int).len() implies !is_bgm_of(#[trigger] events@.take(i as int)[j], w) by {
                                        assert(events@.take(i as int)[j] == events@[j]);
                                    }
                                    lemma_bgm_count_zero(events@.take(i as int), w);
                                }
                            }
                            assert forall|x: usize| #[trigger] lists_sound(out@, x) <==> bgm_uses(events@, i + 1, x) by {
                                if exists|j: int| 0 <= j < i + 1 && is_bgm_of(#[trigger] events@[j], x) {
                                    let j = choose|j: int| 0 <= j < i + 1 && is_bgm_of(#[trigger] events@[j], x);
                                    if j == i {
                                        assert(out@[prev.len() as int].0 == x);
                                    } else {
                                        assert(bgm_uses(events@, i as int, x));
                                        assert(lists_sound(prev, x));
                                        let q = choose|q: int| 0 <= q < prev.len() && (#[trigger] prev[q]).0 == x;
                                        assert(out@[q].0 == x);
                                    }
                                }
                                if exists|q: int| 0 <= q < out@.len() && (#[trigger] out@[q]).0 == x {
                                    let q = choose|q: int| 0 <= q < out@.len() && (#[trigger] out@[q]).0 == x;
                                    if q < prev.len() {
                                        assert(out@[q] == prev[q]);
                                        assert(lists_sound(prev, x));
                                        assert(bgm_uses(events@, i as int, x));
                                        let j = choose|j: int| 0 <= j < i && is_bgm_of(#[trigger] events@[j], x);
                                        assert(0 <= j < i + 1);
                                    } else {
                                        assert(out@[q] == (w, 1usize));
                                        assert(is_bgm_of(events@[i as int], x));
                                    }
                                }
                            }
                        }
                    },
                }
            },
            None => {
                proof {
                    assert forall|x: usize| !is_bgm_of(events@[i as int], x) by {}
                    assert forall|x: usize| #[trigger] bgm_uses(events@, i + 1, x) ==> bgm_uses(events@, i as int, x) by {
                        if exists|j: int| 0 <= j < i + 1 && is_bgm_of(#[trigger] events@[j], x) {
                            let j = choose|j: int| 0 <= j < i + 1 && is_bgm_of(#[trigger] events@[j], x);
                            assert(j != i);
                        }
                    }
                }
            },
        }
        i = i + 1;
    }
    proof {
        assert(events@.take(events@.len() as int) =~= events@);
    }
    out
}

proof fn lemma_bgm_count_zero(events: Seq<ChartEventView>, w: usize)
    requires
        forall|j: int| 0 <= j < events.len() ==> !is_bgm_of(#[trigger] events[j], w),
    ensures
        bgm_count(events, w) == 0,
    decreases events.len(),
{
    if events.len() > 0 {
        assert(!is_bgm_of(events[events.len() - 1], w));
        lemma_bgm_count_zero(events.drop_last(), w);
    }
}


/// A note sits in the column of its key, is not hidden, and keeps a length
/// only when it is a long note.
pub open spec fn note_well_placed(n: ChartNote, lanes: Seq<LaneKey>) -> bool {
    &&& n.lane < lanes.len()
    &&& lanes[n.lane as int] == n.key
    &&& n.kind != NoteType::Invisible
    &&& (n.length_um is Some ==> n.kind == NoteType::Long)
}

proof fn lemma_notes_well_placed(events: Seq<ChartEventView>, lanes: Seq<LaneKey>)
    requires
        lanes.len() <= usize::MAX,
        forall|i: int| 0 <= i < events.len() && #[trigger] is_playable(events[i]) ==> lanes.contains(events[i].body->key),
    ensures
        forall|k: int| 0 <= k < notes_of(events, lanes).len() ==> note_well_placed(#[trigger] notes_of(events, lanes)[k], lanes),
    decreases events.len(),
{
    if events.len() > 0 {
        let d = events.drop_last();
        assert forall|i: int| 0 <= i < d.len() && #[trigger] is_playable(d[i]) implies lanes.contains(d[i].body->key) by {
            assert(d[i] == events[i]);
        }
        lemma_notes_well_placed(d, lanes);
        let e = events.last();
        if is_playable(e) {
            assert(is_playable(events[events.len() - 1]));
            let key = e.body->key;
            assert(lanes.contains(key));
            let p = lane_pos(lanes, key);
            assert(0 <= p < lanes.len() && lanes[p] == key);
            let n = note_of(e, lanes);
            assert(n.lane as int == p);
            assert(note_well_placed(n, lanes));
            let all = notes_of(events, lanes);
            let rest = notes_of(d, lanes);
            assert(all == rest.push(n));
            assert forall|k: int| 0 <= k < all.len() implies note_well_placed(#[trigger] all[k], lanes) by {
                if k < rest.len() {
                    assert(all[k] == rest[k]);
                }
            }
        }
    }
}

/// The lanes and playable notes of a chart's events, with the event counts.
pub struct ChartLayout {
    pub lanes: Vec<LaneKey>,
    /// Playable notes, sorted by event id.
    pub notes: Vec<ChartNote>,
    pub bgm_events: usize,
    pub keysound_events: usize,
    pub last_time_us: i64,
}

/// Lays out a chart: its lanes (see [`collect_lanes`]) and its playable
/// notes sorted by event id (see [`extract_notes`], [`sort_by_event`]).
/// Every note sits in the column of its key, is not hidden, and keeps a
/// length only when it is a long note.
pub fn chart_layout(events: &Vec<ChartEventView>) -> (r: ChartLayout)
    ensures
        distinct_keys(r.lanes@),
        lanes_sorted(r.lanes@),
        ties_by_appearance(r.lanes@, events@, events@.len() as int),
        forall|k: LaneKey|
            r.lanes@.contains(k) <==> exists|i: int|
                0 <= i < events@.len() && #[trigger] lane_key_of(events@[i]) == Some(k),
        sorted_by_event(r.notes@),
        r.notes@.to_multiset() == notes_of(events@, r.lanes@).to_multiset(),
        forall|k: int| 0 <= k < r.notes@.len() ==> note_well_placed(#[trigger] r.notes@[k], r.lanes@),
        r.bgm_events == count_events(events@, |e: ChartEventView| is_bgm(e)),
        r.keysound_events == count_events(events@, |e: ChartEventView| is_p1_note(e)),
        r.last_time_us == last_time(events@),
{
    let lanes = collect_lanes(events);
    proof {
        assert forall|i: int| 0 <= i < events@.len() && #[trigger] is_playable(events@[i]) implies lanes@.contains(
            events@[i].body->key,
        ) by {
            assert(lane_key_of(events@[i]) == Some(events@[i].body->key));
        }
        assert(lanes@.len() == lanes.len() as int);
        lemma_notes_well_placed(events@, lanes@);
    }
    let extracted = extract_notes(events, &lanes);
    let notes = sort_by_event(extracted.notes);
    proof {
        let src = notes_of(events@, lanes@);
        assert forall|k: int| 0 <= k < notes@.len() implies note_well_placed(#[trigger] notes@[k], lanes@) by {
            let n = notes@[k];
            assert(notes@.contains(n));
            assert(notes@.to_multiset().count(n) > 0);
            assert(src.to_multiset().count(n) > 0);
            assert(src.contains(n));
            let m = choose|m: int| 0 <= m < src.len() && src[m] == n;
            assert(note_well_placed(src[m], lanes@));
        }
    }
    ChartLayout {
        lanes,
        notes,
        bgm_events: extracted.bgm_events,
        keysound_events: extracted.keysound_events,
        last_time_us: extracted.last_time_us,
    }
}


/// A chart plays in seven-key mode exactly when one of its lanes, anywhere
/// in the list, is a key above 5. So adding lanes never turns a seven-key
/// chart into a five-key one, and a chart with key 6 or 7 is seven-key.
pub proof fn lemma_seven_keys_when_key_above_five(a: Seq<LaneKey>, b: Seq<LaneKey>)
    ensures
        play_mode_of(a) == PlayMode::SevenKey <==> exists|i: int| 0 <= i < a.len() && (#[trigger] a[i] matches LaneKey::Key(n) && n > 5),
        play_mode_of(a) == PlayMode::SevenKey ==> play_mode_of(a + b) == PlayMode::SevenKey,
        play_mode_of(b) == PlayMode::SevenKey ==> play_mode_of(a + b) == PlayMode::SevenKey,
        a.contains(LaneKey::Key(6)) || a.contains(LaneKey::Key(7)) ==> play_mode_of(a) == PlayMode::SevenKey,
        play_mode_of(a) == PlayMode::FiveKey || play_mode_of(a) == PlayMode::SevenKey,
{
    if play_mode_of(a) == PlayMode::SevenKey {
        let i = choose|i: int| 0 <= i < a.len() && (#[trigger] a[i] matches LaneKey::Key(n) && n > 5);
        assert((a + b)[i] == a[i]);
    }
    if play_mode_of(b) == PlayMode::SevenKey {
        let i = choose|i: int| 0 <= i < b.len() && (#[trigger] b[i] matches LaneKey::Key(n) && n > 5);
        assert((a + b)[a.len() + i] == b[i]);
    }
    if a.contains(LaneKey::Key(6)) {
        let i = choose|i: int| 0 <= i < a.len() && a[i] == LaneKey::Key(6);
        assert(a[i] matches LaneKey::Key(n) && n > 5);
    }
    if a.contains(LaneKey::Key(7)) {
        let i = choose|i: int| 0 <= i < a.len() && a[i] == LaneKey::Key(7);
        assert(a[i] matches LaneKey::Key(n) && n > 5);
    }
}
} // verus!
