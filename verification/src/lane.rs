//! Long-note state machine of one lane.
//!
//! Three long-note kinds (chosen by `#LNTYPE`):
//! - **LN**: head judged; releasing inside the GOOD window before the tail
//!   defers a GOOD tail judgement; holding to the tail ends without one.
//! - **CN** (charge note): same structure, with a tail judgement.
//! - **HCN** (hell charge note): tail judgement, and the gauge heals while held.
//!
//! Times are in microseconds of play time; positions in millionths of a
//! measure.

use vstd::prelude::*;

use crate::chart::LaneKey;
use crate::judge::{JudgeWindows, Judgement};

verus! {

/// `#LNTYPE` value of a chart.
#[derive(Debug, Clone, Copy, PartialEq, Eq, Structural)]
pub enum LnMode {
    /// Long note (no tail judgement).
    Ln,
    /// Charge note (tail judgement).
    Cn,
    /// Hell charge note (tail judgement, heals while held).
    Hcn,
}

/// Long-note kind.
#[derive(Debug, Clone, Copy, PartialEq, Eq, Structural)]
pub enum LnKind {
    /// Long note (held to the tail, no tail judgement).
    LongNote,
    /// Charge note (tail judgement).
    ChargeNote,
    /// Hell charge note (tail judgement, heals while held).
    HellChargeNote,
}

/// The long-note kind of a `#LNTYPE` mode.
pub open spec fn kind_of_mode(m: LnMode) -> LnKind {
    match m {
        LnMode::Ln => LnKind::LongNote,
        LnMode::Cn => LnKind::ChargeNote,
        LnMode::Hcn => LnKind::HellChargeNote,
    }
}

/// Display name of a long-note kind.
pub open spec fn ln_kind_label(k: LnKind) -> Seq<char> {
    match k {
        LnKind::LongNote => "LN"@,
        LnKind::ChargeNote => "CN"@,
        LnKind::HellChargeNote => "HCN"@,
    }
}

impl Default for LnKind {
    /// A plain long note.
    fn default() -> (k: Self)
        ensures
            k == LnKind::LongNote,
    {
        LnKind::LongNote
    }
}

impl From<LnMode> for LnKind {
    fn from(mode: LnMode) -> (k: Self) {
        match mode {
            LnMode::Ln => LnKind::LongNote,
            LnMode::Cn => LnKind::ChargeNote,
            LnMode::Hcn => LnKind::HellChargeNote,
        }
    }
}

impl vstd::std_specs::convert::FromSpecImpl<LnMode> for LnKind {
    open spec fn obeys_from_spec() -> bool {
        true
    }

    open spec fn from_spec(mode: LnMode) -> LnKind {
        kind_of_mode(mode)
    }
}

impl LnKind {
    /// Display name.
    pub fn label(self) -> (s: &'static str)
        ensures
            s@ == ln_kind_label(self),
    {
        match self {
            LnKind::LongNote => "LN",
            LnKind::ChargeNote => "CN",
            LnKind::HellChargeNote => "HCN",
        }
    }
}

/// State of the active long note of a lane.
#[derive(Debug, Clone, Copy, PartialEq, Eq, Structural)]
pub struct LnState {
    /// Index of the active long note (`None`: no active long note).
    pub processing: Option<usize>,
    /// Long-note kind.
    pub kind: LnKind,
    /// Head judgement.
    pub lnstart_judge: Option<Judgement>,
    /// Head timing offset (microseconds).
    pub lnstart_duration_us: i64,
    /// Time of a release before the tail (`None`: still held).
    pub release_time_us: Option<i64>,
    /// Deferred tail judgement (only after such a release).
    pub lnend_judge: Option<Judgement>,
    /// Time of the last hell-charge heal.
    pub last_heal_us: i64,
}

/// The idle state.
pub open spec fn ln_state_idle() -> LnState {
    LnState {
        processing: None,
        kind: LnKind::LongNote,
        lnstart_judge: None,
        lnstart_duration_us: 0,
        release_time_us: None,
        lnend_judge: None,
        last_heal_us: 0,
    }
}

impl Default for LnState {
    /// No active long note.
    fn default() -> (s: Self)
        ensures
            s == ln_state_idle(),
    {
        LnState {
            processing: None,
            kind: LnKind::LongNote,
            lnstart_judge: None,
            lnstart_duration_us: 0,
            release_time_us: None,
            lnend_judge: None,
            last_heal_us: 0,
        }
    }
}

/// Head hit: activates long note `idx` (called when a press hits its head).
pub fn start_ln(state: &mut LnState, idx: usize, kind: LnKind, judge: Judgement, duration_us: i64)
    ensures
        *final(state) == (LnState {
            processing: Some(idx),
            kind: kind,
            lnstart_judge: Some(judge),
            lnstart_duration_us: duration_us,
            release_time_us: None,
            lnend_judge: None,
            last_heal_us: old(state).last_heal_us,
        }),
{
    state.processing = Some(idx);
    state.kind = kind;
    state.lnstart_judge = Some(judge);
    state.lnstart_duration_us = duration_us;
    state.release_time_us = None;
    state.lnend_judge = None;
}

/// Whether a release at `now_us` of a tail due at `tail_us` is inside the
/// GOOD window before the tail.
pub open spec fn release_deferred(now_us: int, tail_us: int, w: JudgeWindows) -> bool {
    let remaining = tail_us - now_us;
    remaining > 0 && remaining <= w.gd_ms * 1000
}

/// Key release during a long note.
///
/// A release inside the GOOD window before the tail defers a GOOD tail
/// judgement (returns `None`; the note goes on, the combo is kept). Any other
/// release judges the tail at once as POOR.
pub fn release_ln(state: &mut LnState, now_us: i64, tail_us: i64, windows: &JudgeWindows) -> (r: Option<Judgement>)
    ensures
        release_deferred(now_us as int, tail_us as int, *windows) ==> {
            &&& r is None
            &&& *final(state) == (LnState {
                release_time_us: Some(now_us),
                lnend_judge: Some(Judgement::Gd),
                ..*old(state)
            })
        },
        !release_deferred(now_us as int, tail_us as int, *windows) ==> {
            &&& r == Some(Judgement::Pr)
            &&& *final(state) == *old(state)
        },
{
    let remaining = (tail_us as i128) - (now_us as i128);
    if remaining > 0 && remaining <= (windows.gd_ms as i128) * 1000 {
        state.release_time_us = Some(now_us);
        state.lnend_judge = Some(Judgement::Gd);
        None
    } else {
        Some(Judgement::Pr)
    }
}

/// Tail check of an active long note (called every frame).
///
/// `None` while the tail (`head_um + length_um`) is ahead of the playback
/// position `now_um`; once reached, `Some(Some(j))` with the deferred tail
/// judgement after a release, or `Some(None)` when held to the end.
pub fn update_ln(state: &LnState, head_um: i64, length_um: i64, now_um: i64) -> (r: Option<Option<Judgement>>)
    ensures
        (now_um as int) < head_um + length_um ==> r is None,
        (now_um as int) >= head_um + length_um ==> r == Some(state.lnend_judge),
{
    let tail = (head_um as i128) + (length_um as i128);
    if (now_um as i128) < tail {
        return None;
    }
    match state.lnend_judge {
        Some(j) => Some(Some(j)),
        None => Some(None),
    }
}

/// A judgement made on a lane and when.
#[derive(Debug, Clone, Copy, PartialEq, Eq, Structural)]
pub struct LastHit {
    /// The judgement.
    pub judgement: Judgement,
    /// When it was made (µs of play time).
    pub at_us: i64,
}

/// Play state of one lane.
#[derive(Debug, Clone, Copy, PartialEq, Eq, Structural)]
pub struct LaneState {
    /// Active long note.
    pub ln: LnState,
    /// Latest judgement on the lane and its time (µs), for hit effects.
    pub last_hit: Option<LastHit>,
}

/// The state of a lane that has seen nothing yet.
pub open spec fn lane_state_idle() -> LaneState {
    LaneState { ln: ln_state_idle(), last_hit: None }
}

impl Default for LaneState {
    /// Idle lane.
    fn default() -> (s: Self)
        ensures
            s == lane_state_idle(),
    {
        LaneState { ln: LnState::default(), last_hit: None }
    }
}

/// The state of every lane that has been touched, by lane key.
#[derive(Debug, Clone)]
pub struct LaneStates {
    lanes: Vec<(LaneKey, LaneState)>,
}

impl LaneStates {
    /// The entries, one per lane key.
    pub closed spec fn entries(&self) -> Seq<(LaneKey, LaneState)> {
        self.lanes@
    }

    /// No lane key occurs twice.
    pub open spec fn wf(&self) -> bool {
        forall|i: int, j: int|
            0 <= i < j < self.entries().len() ==> self.entries()[i].0 != self.entries()[j].0
    }

    /// The state of lane `key`, if it has been touched.
    pub open spec fn state_of(&self, key: LaneKey) -> Option<LaneState> {
        if exists|i: int| 0 <= i < self.entries().len() && #[trigger] self.entries()[i].0 == key {
            Some(self.entries()[choose|i: int| 0 <= i < self.entries().len() && #[trigger] self.entries()[i].0 == key].1)
        } else {
            None
        }
    }

    /// No lane touched.
    pub fn new() -> (s: Self)
        ensures
            s.wf(),
            s.entries().len() == 0,
    {
        LaneStates { lanes: Vec::new() }
    }

    /// Number of touched lanes.
    pub fn len(&self) -> (n: usize)
        ensures
            n == self.entries().len(),
    {
        self.lanes.len()
    }

    /// Entry `i` (lane key and state).
    pub fn entry(&self, i: usize) -> (e: (LaneKey, LaneState))
        requires
            i < self.entries().len(),
        ensures
            e == self.entries()[i as int],
    {
        self.lanes[i]
    }

    fn position(&self, key: LaneKey) -> (r: Option<usize>)
        ensures
            r matches Some(i) ==> i < self.entries().len() && self.entries()[i as int].0 == key,
            r is None ==> forall|j: int| 0 <= j < self.entries().len() ==> self.entries()[j].0 != key,
    {
        let mut i: usize = 0;
        while i < self.lanes.len()
            invariant
                0 <= i <= self.lanes@.len(),
                forall|j: int| 0 <= j < i ==> self.lanes@[j].0 != key,
            decreases self.lanes.len() - i,
        {
            if self.lanes[i].0 == key {
                return Some(i);
            }
            i = i + 1;
        }
        None
    }

    /// The state of lane `key` (idle when untouched).
    pub fn get(&self, key: LaneKey) -> (s: LaneState)
        requires
            self.wf(),
        ensures
            s == match self.state_of(key) {
                Some(st) => st,
                None => lane_state_idle(),
            },
    {
        match self.position(key) {
            Some(i) => {
                proof {
                    let c = choose|j: int| 0 <= j < self.entries().len() && #[trigger] self.entries()[j].0 == key;
                    assert(c == i as int);
                }
                self.lanes[i].1
            },
            None => LaneState::default(),
        }
    }

    /// Stores the state of lane `key`; the other lanes keep theirs.
    pub fn set(&mut self, key: LaneKey, state: LaneState)
        requires
            old(self).wf(),
        ensures
            final(self).wf(),
            final(self).state_of(key) == Some(state),
            forall|k: LaneKey| k != key ==> final(self).state_of(k) == old(self).state_of(k),
    {
        let ghost old_entries = self.lanes@;
        match self.position(key) {
            Some(i) => {
                self.lanes.set(i, (key, state));
                proof {
                    assert(self.lanes@ == old_entries.update(i as int, (key, state)));
                    assert(self.entries()[i as int].0 == key);
                    let c = choose|j: int| 0 <= j < self.entries().len() && #[trigger] self.entries()[j].0 == key;
                    assert(c == i as int);
                    assert forall|k: LaneKey| k != key implies self.state_of(k) == old(self).state_of(k) by {
                        if exists|j: int| 0 <= j < old_entries.len() && #[trigger] old_entries[j].0 == k {
                            let j = choose|j: int| 0 <= j < old_entries.len() && #[trigger] old_entries[j].0 == k;
                            assert(self.entries()[j].0 == k);
                            let c2 = choose|j: int| 0 <= j < self.entries().len() && #[trigger] self.entries()[j].0 == k;
                            assert(c2 == j);
                        }
                        if exists|j: int| 0 <= j < self.entries().len() && #[trigger] self.entries()[j].0 == k {
                            let j = choose|j: int| 0 <= j < self.entries().len() && #[trigger] self.entries()[j].0 == k;
                            assert(old_entries[j].0 == k);
                        }
                    }
                }
            },
            None => {
                self.lanes.push((key, state));
                proof {
                    let n = old_entries.len() as int;
                    assert(self.entries()[n].0 == key);
                    let c = choose|j: int| 0 <= j < self.entries().len() && #[trigger] self.entries()[j].0 == key;
                    assert(c == n);
                    assert forall|k: LaneKey| k != key implies self.state_of(k) == old(self).state_of(k) by {
                        if exists|j: int| 0 <= j < old_entries.len() && #[trigger] old_entries[j].0 == k {
                            let j = choose|j: int| 0 <= j < old_entries.len() && #[trigger] old_entries[j].0 == k;
                            assert(self.entries()[j].0 == k);
                        }
                        if exists|j: int| 0 <= j < self.entries().len() && #[trigger] self.entries()[j].0 == k {
                            let j = choose|j: int| 0 <= j < self.entries().len() && #[trigger] self.entries()[j].0 == k;
                            assert(j < n);
                            assert(old_entries[j].0 == k);
                        }
                    }
                }
            },
        }
    }

    /// Whether some lane's active long note is note `idx` (its head was hit).
    pub fn holds_note(&self, idx: usize) -> (b: bool)
        ensures
            b <==> exists|i: int|
                0 <= i < self.entries().len() && (#[trigger] self.entries()[i]).1.ln.processing == Some(idx),
    {
        let mut i: usize = 0;
        while i < self.lanes.len()
            invariant
                0 <= i <= self.lanes@.len(),
                forall|j: int| 0 <= j < i ==> (#[trigger] self.lanes@[j]).1.ln.processing != Some(idx),
            decreases self.lanes.len() - i,
        {
            if self.lanes[i].1.ln.processing == Some(idx) {
                return true;
            }
            i = i + 1;
        }
        false
    }
}

impl Default for LaneStates {
    /// No lane touched.
    fn default() -> (s: Self)
        ensures
            s.wf(),
            s.entries().len() == 0,
    {
        LaneStates::new()
    }
}

} // verus!
