//! Play state read by skins (`main_state`): numbers, texts and timers by id.
//!
//! Times are microseconds, timer values milliseconds (or [`TIMER_OFF`]),
//! positions millionths of a measure; fractional quantities are held in
//! hundredths (hi-speed, gauge) or thousandths (BPM, scroll).

use vstd::prelude::*;

use crate::chart::{ChartNote, LaneKey, NoteType};
use crate::judge::Judgement;
use crate::keybind::BindTarget;
use crate::lane::{LaneState, LaneStates};

verus! {

/// Value of a timer that is off.
pub const TIMER_OFF: i64 = i64::MIN;

/// Timer: play started.
pub const TIMER_PLAY: usize = 1;
/// Timer: fade-out.
pub const TIMER_FADEOUT: usize = 2;
/// Timer: failed.
pub const TIMER_FAILED: usize = 3;
/// Timer: ready (before play starts).
pub const TIMER_READY: usize = 40;
/// Timer: gauge full (1P).
pub const TIMER_GAUGE_MAX_1P: usize = 44;
/// Timer: latest judgement (1P).
pub const TIMER_JUDGE_1P: usize = 46;
/// Timer: full combo going on (1P).
pub const TIMER_FULLCOMBO_1P: usize = 48;
/// Timers: hit effect per lane (1P, turntable first).
pub const TIMER_BOMB_1P_SCRATCH: usize = 50;
/// Timers: long note held per lane (1P).
pub const TIMER_HOLD_1P_SCRATCH: usize = 70;
/// Timers: key down per lane (1P).
pub const TIMER_KEYON_1P_SCRATCH: usize = 100;
/// Timers: key up per lane (1P).
pub const TIMER_KEYOFF_1P_SCRATCH: usize = 120;

/// A note near the judgement line, as skins draw it.
#[derive(Debug, Clone, Copy, PartialEq, Eq, Structural)]
pub struct NoteState {
    /// Index of the note in the chart.
    pub idx: usize,
    /// Column.
    pub lane: usize,
    /// Position (millionths of a measure).
    pub position_um: i64,
    /// Length of a long note (millionths of a measure).
    pub length_um: Option<i64>,
    /// 0 normal, 1 long, 2 landmine, 3 hidden.
    pub kind: u8,
    /// Already judged (not drawn).
    pub consumed: bool,
    /// Long-note body active (head judged, tail not yet).
    pub ln_active: bool,
}

/// The latest judgement, popped up by the skin.
#[derive(Debug, Clone, Copy, PartialEq, Eq, Structural)]
pub struct JudgePop {
    /// Lane index (0 turntable, 1-7 keys).
    pub lane: usize,
    /// 0 PG, 1 GR, 2 GD, 3 BD, 4 PR.
    pub judgement: u8,
    /// When it was made (µs of play time).
    pub at_us: i64,
}

/// Snapshot of a play, refreshed every frame.
#[derive(Debug, Clone)]
pub struct PlayState {
    /// Play time (µs from the start of play).
    pub now_time_us: i64,
    /// Scene time (µs since the play screen opened, loading included).
    pub scene_time_us: i64,
    /// Playback position (millionths of a measure).
    pub now_um: i64,
    /// Height of the visible window (millionths of a measure).
    pub visible_um: i64,
    /// Scroll speed × 100.
    pub hispeed_x100: i64,
    /// Time played (µs).
    pub duration_us: i64,
    /// Length of the chart (µs).
    pub total_us: i64,
    pub title: String,
    pub artist: String,
    pub genre: String,
    pub play_level: i64,
    pub total_notes: i64,
    /// BPM × 1000.
    pub bpm_now_milli: i64,
    pub bpm_min_milli: i64,
    pub bpm_max_milli: i64,
    pub ex_score: i64,
    pub combo: i64,
    pub max_combo: i64,
    pub pg: i64,
    pub gr: i64,
    pub gd: i64,
    pub bd: i64,
    pub pr: i64,
    /// Early judgements.
    pub fast: i64,
    /// Late judgements.
    pub slow: i64,
    pub combo_break: i64,
    /// Gauge (percent × 100).
    pub gauge_centi: i64,
    /// Gauge type index 0-8.
    pub gauge_type: i32,
    /// Clear border (percent × 100).
    pub gauge_border_centi: i64,
    /// Gauge maximum (percent × 100).
    pub gauge_max_centi: i64,
    pub failed: bool,
    pub started: bool,
    pub auto: bool,
    /// Timer start times by id (ms of scene time) or [`TIMER_OFF`].
    pub timers: [i64; 256],
    /// Key held, per lane (0 turntable, 1-7 keys).
    pub keys: [bool; 8],
    /// When each key was last pressed (µs of scene time).
    pub key_press_at_us: [i64; 8],
    /// Notes near the judgement line.
    pub notes: Vec<NoteState>,
    /// Scroll changes: (position in millionths of a measure, scroll × 1000),
    /// by position.
    pub scroll_timeline: Vec<(i64, i64)>,
    /// Latest judgement (at most one).
    pub judge_pops: Vec<JudgePop>,
}

/// The snapshot before anything is played: normal gauge, border 80 %,
/// maximum 100 %, scroll speed 1, every timer off, scroll 1 from the start.
pub open spec fn play_state_initial(s: PlayState) -> bool {
    &&& s.now_time_us == 0 && s.scene_time_us == 0 && s.now_um == 0 && s.visible_um == 0
    &&& s.hispeed_x100 == 100 && s.duration_us == 0 && s.total_us == 0
    &&& s.title@.len() == 0 && s.artist@.len() == 0 && s.genre@.len() == 0
    &&& s.play_level == 0 && s.total_notes == 0
    &&& s.bpm_now_milli == 0 && s.bpm_min_milli == 0 && s.bpm_max_milli == 0
    &&& s.ex_score == 0 && s.combo == 0 && s.max_combo == 0
    &&& s.pg == 0 && s.gr == 0 && s.gd == 0 && s.bd == 0 && s.pr == 0
    &&& s.fast == 0 && s.slow == 0 && s.combo_break == 0
    &&& s.gauge_centi == 0 && s.gauge_type == 2 && s.gauge_border_centi == 8000 && s.gauge_max_centi == 10000
    &&& !s.failed && !s.started && !s.auto
    &&& forall|i: int| 0 <= i < 256 ==> s.timers@[i] == TIMER_OFF
    &&& forall|i: int| 0 <= i < 8 ==> !s.keys@[i] && s.key_press_at_us@[i] == 0
    &&& s.notes@.len() == 0
    &&& s.scroll_timeline@ == seq![(0i64, 1000i64)]
    &&& s.judge_pops@.len() == 0
}

impl Default for PlayState {
    fn default() -> (s: Self)
        ensures
            play_state_initial(s),
    {
        let mut scroll: Vec<(i64, i64)> = Vec::new();
        scroll.push((0, 1000));
        PlayState {
            now_time_us: 0,
            scene_time_us: 0,
            now_um: 0,
            visible_um: 0,
            hispeed_x100: 100,
            duration_us: 0,
            total_us: 0,
            title: String::new(),
            artist: String::new(),
            genre: String::new(),
            play_level: 0,
            total_notes: 0,
            bpm_now_milli: 0,
            bpm_min_milli: 0,
            bpm_max_milli: 0,
            ex_score: 0,
            combo: 0,
            max_combo: 0,
            pg: 0,
            gr: 0,
            gd: 0,
            bd: 0,
            pr: 0,
            fast: 0,
            slow: 0,
            combo_break: 0,
            gauge_centi: 0,
            gauge_type: 2,
            gauge_border_centi: 8000,
            gauge_max_centi: 10000,
            failed: false,
            started: false,
            auto: false,
            timers: [TIMER_OFF; 256],
            keys: [false; 8],
            key_press_at_us: [0; 8],
            notes: Vec::new(),
            scroll_timeline: scroll,
            judge_pops: Vec::new(),
        }
    }
}

/// Quotient of `a / b` rounded toward zero (integer division as Rust does it).
pub open spec fn trunc_div(a: int, b: int) -> int {
    let q = (if a >= 0 { a } else { -a }) / (if b >= 0 { b } else { -b });
    if (a >= 0) == (b > 0) || a == 0 {
        q
    } else {
        -q
    }
}

/// Remainder of `a / b` with the sign of `a` (Rust's `%`).
pub open spec fn trunc_rem(a: int, b: int) -> int {
    a - b * trunc_div(a, b)
}

/// `x` saturated to the `i64` range.
pub open spec fn sat_i64(x: int) -> int {
    if x > i64::MAX {
        i64::MAX as int
    } else if x < i64::MIN {
        i64::MIN as int
    } else {
        x
    }
}

/// `a / b` rounded toward zero, for a positive divisor.
fn tdiv(a: i128, b: i128) -> (r: i128)
    requires
        b > 0,
        a > i128::MIN,
    ensures
        r == trunc_div(a as int, b as int),
        a >= 0 ==> 0 <= r <= a,
        a < 0 ==> a <= r <= 0,
{
    if a >= 0 {
        proof {
            assert(a / b <= a) by (nonlinear_arith)
                requires
                    a >= 0,
                    b > 0,
            ;
        }
        a / b
    } else {
        let m: i128 = -a;
        proof {
            assert(m / b <= m) by (nonlinear_arith)
                requires
                    m >= 0,
                    b > 0,
            ;
        }
        let q: i128 = m / b;
        -q
    }
}

/// Remainder of `a / b` with the sign of `a`, for a positive divisor.
fn trem(a: i128, b: i128) -> (r: i128)
    requires
        b > 0,
        a > i128::MIN,
        -0x1_0000_0000_0000_0000_0000 <= a <= 0x1_0000_0000_0000_0000_0000,
        b <= 0x1_0000_0000_0000_0000_0000,
    ensures
        r == trunc_rem(a as int, b as int),
        a >= 0 ==> 0 <= r < b,
        a < 0 ==> -b < r <= 0,
{
    let q = tdiv(a, b);
    proof {
        let ai = a as int;
        let bi = b as int;
        let qi = q as int;
        if a >= 0 {
            assert(0 <= ai - bi * qi < bi && 0 <= bi * qi <= ai) by (nonlinear_arith)
                requires
                    ai >= 0,
                    bi > 0,
                    qi == ai / bi,
            ;
        } else {
            assert(qi == -((-ai) / bi));
            assert(-bi < ai - bi * qi <= 0 && ai <= bi * qi <= 0) by (nonlinear_arith)
                requires
                    ai < 0,
                    bi > 0,
                    qi == -((-ai) / bi),
            ;
        }
    }
    let bq: i128 = b * q;
    a - bq
}

/// `x` saturated to the `i64` range.
fn sat(x: i128) -> (r: i64)
    ensures
        r == sat_i64(x as int),
{
    if x > (i64::MAX as i128) {
        i64::MAX
    } else if x < (i64::MIN as i128) {
        i64::MIN
    } else {
        x as i64
    }
}

/// EX score rate in hundredths of a percent (0-10000 for a valid play):
/// `ex / (2 × notes) × 10000`, rounded toward zero; 0 without notes.
pub open spec fn rate_x100_spec(s: PlayState) -> int {
    if s.total_notes == 0 {
        0
    } else {
        sat_i64(trunc_div(s.ex_score * 10000, s.total_notes * 2))
    }
}

impl PlayState {
    /// EX score rate in hundredths of a percent (see [`rate_x100_spec`]).
    pub fn rate_x100(&self) -> (r: i64)
        ensures
            r == rate_x100_spec(*self),
    {
        if self.total_notes == 0 {
            return 0;
        }
        let num: i128 = (self.ex_score as i128) * 10000;
        let den: i128 = (self.total_notes as i128) * 2;
        let q: i128 = if den > 0 {
            tdiv(num, den)
        } else {
            let q0 = tdiv(num, -den);
            proof {
                let a = num as int;
                let b = den as int;
                assert(trunc_div(a, b) == -trunc_div(a, -b));
            }
            -q0
        };
        sat(q)
    }
}

/// The value of number `id` (skin number property) in state `s`.
pub open spec fn number_spec(s: PlayState, id: i64) -> int {
    let left = {
        let l = s.total_us - s.duration_us + 1_000_000;
        if l > 0 { l } else { 0 }
    };
    if id == 10 {
        s.hispeed_x100 as int
    } else if id == 71 || id == 100 || id == 101 || id == 171 {
        s.ex_score as int
    } else if id == 74 || id == 106 {
        s.total_notes as int
    } else if id == 75 || id == 105 || id == 174 {
        s.max_combo as int
    } else if id == 76 || id == 84 || id == 114 || id == 177 || id == 420 || id == 426 {
        s.pr as int
    } else if id == 80 || id == 110 {
        s.pg as int
    } else if id == 81 || id == 111 {
        s.gr as int
    } else if id == 82 || id == 112 {
        s.gd as int
    } else if id == 83 || id == 113 {
        s.bd as int
    } else if id == 90 {
        trunc_div(s.bpm_max_milli as int, 1000)
    } else if id == 91 {
        trunc_div(s.bpm_min_milli as int, 1000)
    } else if id == 160 {
        trunc_div(s.bpm_now_milli as int, 1000)
    } else if id == 96 {
        s.play_level as int
    } else if id == 102 || id == 155 {
        trunc_div(rate_x100_spec(s), 100)
    } else if id == 103 || id == 156 {
        trunc_rem(rate_x100_spec(s), 100)
    } else if id == 104 {
        s.combo as int
    } else if id == 107 {
        trunc_div(s.gauge_centi as int, 100)
    } else if id == 407 {
        trunc_rem(s.gauge_centi as int, 100)
    } else if id == 161 {
        trunc_div(s.duration_us as int, 60_000_000)
    } else if id == 162 {
        trunc_rem(trunc_div(s.duration_us as int, 1_000_000), 60)
    } else if id == 163 {
        left / 60_000_000
    } else if id == 164 {
        (left / 1_000_000) % 60
    } else if id == 310 {
        trunc_div(s.hispeed_x100 as int, 100)
    } else if id == 311 {
        trunc_rem(s.hispeed_x100 as int, 100)
    } else if id == 423 {
        s.fast as int
    } else if id == 424 {
        s.slow as int
    } else if id == 425 {
        s.combo_break as int
    } else if id == 427 {
        s.bd + s.pr
    } else {
        0
    }
}

/// Skin number `id` (beatoraja number property ids: scores, judgement
/// counts, BPM, rates, play time, hi-speed, gauge; 0 for anything this
/// player has no data for).
pub fn number(s: &PlayState, id: i64) -> (r: i64)
    requires
        id == 427 ==> i64::MIN <= s.bd + s.pr <= i64::MAX,
    ensures
        r == number_spec(*s, id),
{
    let left: i128 = {
        let l: i128 = (s.total_us as i128) - (s.duration_us as i128) + 1_000_000;
        if l > 0 {
            l
        } else {
            0
        }
    };
    if id == 10 {
        s.hispeed_x100
    } else if id == 71 || id == 100 || id == 101 || id == 171 {
        s.ex_score
    } else if id == 74 || id == 106 {
        s.total_notes
    } else if id == 75 || id == 105 || id == 174 {
        s.max_combo
    } else if id == 76 || id == 84 || id == 114 || id == 177 || id == 420 || id == 426 {
        s.pr
    } else if id == 80 || id == 110 {
        s.pg
    } else if id == 81 || id == 111 {
        s.gr
    } else if id == 82 || id == 112 {
        s.gd
    } else if id == 83 || id == 113 {
        s.bd
    } else if id == 90 {
        tdiv(s.bpm_max_milli as i128, 1000) as i64
    } else if id == 91 {
        tdiv(s.bpm_min_milli as i128, 1000) as i64
    } else if id == 160 {
        tdiv(s.bpm_now_milli as i128, 1000) as i64
    } else if id == 96 {
        s.play_level
    } else if id == 102 || id == 155 {
        tdiv(s.rate_x100() as i128, 100) as i64
    } else if id == 103 || id == 156 {
        trem(s.rate_x100() as i128, 100) as i64
    } else if id == 104 {
        s.combo
    } else if id == 107 {
        tdiv(s.gauge_centi as i128, 100) as i64
    } else if id == 407 {
        trem(s.gauge_centi as i128, 100) as i64
    } else if id == 161 {
        tdiv(s.duration_us as i128, 60_000_000) as i64
    } else if id == 162 {
        let secs = tdiv(s.duration_us as i128, 1_000_000);
        trem(secs, 60) as i64
    } else if id == 163 {
        (left / 60_000_000) as i64
    } else if id == 164 {
        ((left / 1_000_000) % 60) as i64
    } else if id == 310 {
        tdiv(s.hispeed_x100 as i128, 100) as i64
    } else if id == 311 {
        trem(s.hispeed_x100 as i128, 100) as i64
    } else if id == 423 {
        s.fast
    } else if id == 424 {
        s.slow
    } else if id == 425 {
        s.combo_break
    } else if id == 427 {
        s.bd + s.pr
    } else {
        0
    }
}

/// Skin text `id`: 10 title, 13 genre, 14 artist; empty otherwise.
pub open spec fn text_spec(s: PlayState, id: i64) -> Seq<char> {
    if id == 10 {
        s.title@
    } else if id == 13 {
        s.genre@
    } else if id == 14 {
        s.artist@
    } else {
        Seq::empty()
    }
}

/// Skin text `id` (see [`text_spec`]).
pub fn text(s: &PlayState, id: i64) -> (r: String)
    ensures
        r@ == text_spec(*s, id),
{
    if id == 10 {
        s.title.clone()
    } else if id == 13 {
        s.genre.clone()
    } else if id == 14 {
        s.artist.clone()
    } else {
        String::new()
    }
}

/// Skin timer `id`: its start time (ms), or [`TIMER_OFF`] when off or
/// outside the timer table.
pub fn timer(s: &PlayState, id: i64) -> (r: i64)
    ensures
        r == (if 0 <= id < 256 { s.timers@[id as int] } else { TIMER_OFF }),
{
    if id < 0 || id >= 256 {
        return TIMER_OFF;
    }
    s.timers[id as usize]
}

/// Start time (ms) of a timer started at `at_us`.
pub open spec fn timer_ms(at_us: int) -> int {
    trunc_div(at_us, 1000)
}

/// Sets the play, ready, failed, full-combo and gauge-full timers from the
/// state's flags (`gauge_full`: the gauge is at its maximum). Started and
/// constant timers start at 0; failed and gauge-full start now (scene time).
pub fn apply_base_timers(st: &mut PlayState, gauge_full: bool)
    ensures
        final(st).timers@ == old(st).timers@.update(TIMER_PLAY as int, if old(st).started { 0 } else { TIMER_OFF })
            .update(TIMER_READY as int, if old(st).started { TIMER_OFF } else { 0 })
            .update(TIMER_FAILED as int, if old(st).failed { timer_ms(old(st).scene_time_us as int) as i64 } else { TIMER_OFF })
            .update(TIMER_FULLCOMBO_1P as int, if old(st).combo > 0 { 0 } else { TIMER_OFF })
            .update(TIMER_GAUGE_MAX_1P as int, if gauge_full { timer_ms(old(st).scene_time_us as int) as i64 } else { TIMER_OFF }),
        final(st).keys == old(st).keys,
        final(st).judge_pops@ == old(st).judge_pops@,
        *final(st) == (PlayState { timers: final(st).timers, ..*old(st) }),
{
    let scene_ms: i64 = tdiv(st.scene_time_us as i128, 1000) as i64;
    st.timers[TIMER_PLAY] = if st.started { 0 } else { TIMER_OFF };
    st.timers[TIMER_READY] = if st.started { TIMER_OFF } else { 0 };
    st.timers[TIMER_FAILED] = if st.failed { scene_ms } else { TIMER_OFF };
    st.timers[TIMER_FULLCOMBO_1P] = if st.combo > 0 { 0 } else { TIMER_OFF };
    st.timers[TIMER_GAUGE_MAX_1P] = if gauge_full { scene_ms } else { TIMER_OFF };
}

/// Lane index of a binding target (0 turntable, `n` key `n`).
pub open spec fn target_lane(t: BindTarget) -> int {
    match t {
        BindTarget::Scratch => 0,
        BindTarget::Key(n) => n as int,
    }
}

/// Records the state of the key of lane `lane` (0 turntable, 1-7 keys):
/// held or not, the press time when just pressed, and the key-on timer
/// (started at the last press while held, off otherwise). Lanes past the
/// table are ignored.
pub fn apply_key(st: &mut PlayState, lane: usize, pressed: bool, just_pressed: bool)
    ensures
        lane >= 8 ==> final(st).timers@ == old(st).timers@ && final(st).keys@ == old(st).keys@
            && final(st).key_press_at_us@ == old(st).key_press_at_us@,
        lane < 8 ==> {
            let at = if just_pressed { old(st).scene_time_us } else { old(st).key_press_at_us@[lane as int] };
            &&& final(st).keys@ == old(st).keys@.update(lane as int, pressed)
            &&& final(st).key_press_at_us@ == old(st).key_press_at_us@.update(lane as int, at)
            &&& final(st).timers@ == old(st).timers@.update(
                TIMER_KEYON_1P_SCRATCH + lane,
                if pressed { timer_ms(at as int) as i64 } else { TIMER_OFF },
            )
        },
        final(st).judge_pops@ == old(st).judge_pops@,
        *final(st) == (PlayState {
            timers: final(st).timers,
            keys: final(st).keys,
            key_press_at_us: final(st).key_press_at_us,
            ..*old(st)
        }),
{
    if lane >= 8 {
        return;
    }
    st.keys[lane] = pressed;
    if just_pressed {
        st.key_press_at_us[lane] = st.scene_time_us;
    }
    if pressed {
        let at = st.key_press_at_us[lane];
        st.timers[TIMER_KEYON_1P_SCRATCH + lane] = tdiv(at as i128, 1000) as i64;
    } else {
        st.timers[TIMER_KEYON_1P_SCRATCH + lane] = TIMER_OFF;
    }
}

/// Lane index of a lane key (0 turntable, `n` key `n`; none for the rest).
pub open spec fn key_lane(k: LaneKey) -> Option<int> {
    match k {
        LaneKey::Scratch(_) => Some(0),
        LaneKey::Key(n) => Some(n as int),
        _ => None,
    }
}

/// Pop-up code of a judgement (0 PG … 4 POOR; an air POOR shows as POOR).
pub open spec fn pop_code(j: Judgement) -> u8 {
    match j {
        Judgement::Pg => 0,
        Judgement::Gr => 1,
        Judgement::Gd => 2,
        Judgement::Bd => 3,
        _ => 4,
    }
}

/// Every lane key numbers a lane inside the timer table.
pub open spec fn lanes_in_table(lanes: LaneStates) -> bool {
    forall|i: int|
        0 <= i < lanes.entries().len() ==> ((#[trigger] lanes.entries()[i]).0 matches LaneKey::Key(n) ==> n < 156)
}

/// Whether every lane key numbers a lane inside the timer table (see
/// [`lanes_in_table`]), as [`apply_hit_feedback`] needs.
pub fn lanes_fit(lanes: &LaneStates) -> (b: bool)
    ensures
        b == lanes_in_table(*lanes),
{
    let mut i: usize = 0;
    while i < lanes.len()
        invariant
            0 <= i <= lanes.entries().len(),
            forall|j: int|
                0 <= j < i ==> ((#[trigger] lanes.entries()[j]).0 matches LaneKey::Key(n) ==> n < 156),
        decreases lanes.entries().len() - i,
    {
        let (k, _) = lanes.entry(i);
        match k {
            LaneKey::Key(n) => {
                if n >= 156 {
                    return false;
                }
            },
            _ => {},
        }
        i = i + 1;
    }
    true
}

/// A judgement made at `at_us` is still shown at `now_us` (less than a second ago).
pub open spec fn shown_at(at_us: int, now_us: int) -> bool {
    0 <= now_us - at_us < 1_000_000
}

/// The latest judgement among the first `n` lanes still shown at `now_us`
/// (the first of equally late ones): (lane index, pop-up code, time).
pub open spec fn latest_pop(e: Seq<(LaneKey, LaneState)>, n: int, now_us: int) -> Option<JudgePop>
    decreases n,
{
    if n <= 0 {
        None
    } else {
        let acc = latest_pop(e, n - 1, now_us);
        let (k, st) = e[n - 1];
        match (key_lane(k), st.last_hit) {
            (Some(l), Some(h)) => if shown_at(h.at_us as int, now_us) && (acc is None || h.at_us > acc.unwrap().at_us) {
                Some(JudgePop { lane: l as usize, judgement: pop_code(h.judgement), at_us: h.at_us })
            } else {
                acc
            },
            _ => acc,
        }
    }
}

/// The timers after the hit effects of the first `n` lanes: a real hit
/// (not a POOR) less than 0.5 s ago starts the lane's hit-effect timer at
/// the hit; in auto play a hit less than 0.15 s ago starts its key-on timer.
pub open spec fn hit_timers(e: Seq<(LaneKey, LaneState)>, n: int, now_us: int, auto: bool, base: Seq<i64>) -> Seq<i64>
    decreases n,
{
    if n <= 0 {
        base
    } else {
        let acc = hit_timers(e, n - 1, now_us, auto, base);
        let (k, st) = e[n - 1];
        match (key_lane(k), st.last_hit) {
            (Some(l), Some(h)) => if shown_at(h.at_us as int, now_us) {
                let el = now_us - h.at_us;
                let ms = timer_ms(h.at_us as int) as i64;
                let a1 = if el < 500_000 && h.judgement != Judgement::Pr && h.judgement != Judgement::AirPoor {
                    acc.update(TIMER_BOMB_1P_SCRATCH + l, ms)
                } else {
                    acc
                };
                if auto && el < 150_000 {
                    a1.update(TIMER_KEYON_1P_SCRATCH + l, ms)
                } else {
                    a1
                }
            } else {
                acc
            },
            _ => acc,
        }
    }
}

/// The timer table with the hit-effect timers of lanes 0-7 turned off.
pub open spec fn bombs_off(t: Seq<i64>) -> Seq<i64> {
    Seq::new(t.len(), |i: int| if TIMER_BOMB_1P_SCRATCH <= i < TIMER_BOMB_1P_SCRATCH + 8 { TIMER_OFF } else { t[i] })
}

/// Refreshes the hit feedback from the lanes' latest judgements at play time
/// `now_time_us`: the judgement pop-up shows the latest judgement of the
/// last second (its timer starting then, off when there is none); hit
/// effects and, in auto play, key-on timers follow [`hit_timers`].
pub fn apply_hit_feedback(st: &mut PlayState, lanes: &LaneStates)
    requires
        lanes_in_table(*lanes),
    ensures
        ({
            let pop = latest_pop(lanes.entries(), lanes.entries().len() as int, old(st).now_time_us as int);
            let t = hit_timers(lanes.entries(), lanes.entries().len() as int, old(st).now_time_us as int, old(st).auto, bombs_off(old(st).timers@));
            &&& final(st).judge_pops@ == (match pop { Some(p) => seq![p], None => Seq::empty() })
            &&& final(st).timers@ == t.update(TIMER_JUDGE_1P as int, match pop {
                Some(p) => timer_ms(p.at_us as int) as i64,
                None => TIMER_OFF,
            })
        }),
        final(st).keys == old(st).keys,
        final(st).now_time_us == old(st).now_time_us,
        *final(st) == (PlayState { timers: final(st).timers, judge_pops: final(st).judge_pops, ..*old(st) }),
{
    let now = st.now_time_us;
    st.judge_pops = Vec::new();
    let mut l: usize = 0;
    while l < 8
        invariant
            0 <= l <= 8,
            st.now_time_us == now,
            st.keys == old(st).keys,
            st.auto == old(st).auto,
            st.judge_pops@.len() == 0,
            *st == (PlayState { timers: st.timers, judge_pops: st.judge_pops, ..*old(st) }),
            forall|i: int| 0 <= i < 256 ==> st.timers@[i] == if TIMER_BOMB_1P_SCRATCH <= i < TIMER_BOMB_1P_SCRATCH + l { TIMER_OFF } else { old(st).timers@[i] },
        decreases 8 - l,
    {
        st.timers[TIMER_BOMB_1P_SCRATCH + l] = TIMER_OFF;
        l = l + 1;
    }
    assert(st.timers@ == bombs_off(old(st).timers@));
    let mut latest: Option<JudgePop> = None;
    let mut i: usize = 0;
    let n = lanes.len();
    while i < n
        invariant
            0 <= i <= n,
            n == lanes.entries().len(),
            lanes_in_table(*lanes),
            st.now_time_us == now,
            now == old(st).now_time_us,
            st.keys == old(st).keys,
            st.auto == old(st).auto,
            st.judge_pops@.len() == 0,
            *st == (PlayState { timers: st.timers, judge_pops: st.judge_pops, ..*old(st) }),
            latest == latest_pop(lanes.entries(), i as int, now as int),
            st.timers@ == hit_timers(lanes.entries(), i as int, now as int, st.auto, bombs_off(old(st).timers@)),
        decreases n - i,
    {
        let (k, ls) = lanes.entry(i);
        let lane_opt: Option<usize> = match k {
            LaneKey::Scratch(_) => Some(0),
            LaneKey::Key(num) => Some(num as usize),
            _ => None,
        };
        match (lane_opt, ls.last_hit) {
            (Some(lane), Some(h)) => {
                let elapsed: i128 = (now as i128) - (h.at_us as i128);
                if 0 <= elapsed && elapsed < 1_000_000 {
                    let better = match latest {
                        Some(p) => h.at_us > p.at_us,
                        None => true,
                    };
                    let ms: i64 = tdiv(h.at_us as i128, 1000) as i64;
                    if better {
                        let code: u8 = match h.judgement {
                            Judgement::Pg => 0,
                            Judgement::Gr => 1,
                            Judgement::Gd => 2,
                            Judgement::Bd => 3,
                            _ => 4,
                        };
                        latest = Some(JudgePop { lane, judgement: code, at_us: h.at_us });
                    }
                    let real_hit = match h.judgement {
                        Judgement::Pr => false,
                        Judgement::AirPoor => false,
                        _ => true,
                    };
                    if elapsed < 500_000 && real_hit {
                        st.timers[TIMER_BOMB_1P_SCRATCH + lane] = ms;
                    }
                    if st.auto && elapsed < 150_000 {
                        st.timers[TIMER_KEYON_1P_SCRATCH + lane] = ms;
                    }
                }
            },
            _ => {},
        }
        i = i + 1;
    }
    match latest {
        Some(p) => {
            st.judge_pops.push(p);
            st.timers[TIMER_JUDGE_1P] = tdiv(p.at_us as i128, 1000) as i64;
        },
        None => {
            st.timers[TIMER_JUDGE_1P] = TIMER_OFF;
        },
    }
}

/// Lane `l` has an active long note.
pub open spec fn lane_holding(lanes: LaneStates, l: int) -> bool {
    exists|i: int|
        0 <= i < lanes.entries().len() && key_lane((#[trigger] lanes.entries()[i]).0) == Some(l)
            && lanes.entries()[i].1.ln.processing is Some
}

/// Sets the hold timers of lanes 0-7: on (0) while the lane holds a long
/// note, off otherwise.
pub fn apply_hold_timers(st: &mut PlayState, lanes: &LaneStates)
    ensures
        forall|i: int|
            0 <= i < 256 ==> final(st).timers@[i] == if TIMER_HOLD_1P_SCRATCH <= i < TIMER_HOLD_1P_SCRATCH + 8 {
                if lane_holding(*lanes, i - TIMER_HOLD_1P_SCRATCH) { 0 } else { TIMER_OFF }
            } else {
                old(st).timers@[i]
            },
        final(st).judge_pops@ == old(st).judge_pops@,
        *final(st) == (PlayState { timers: final(st).timers, ..*old(st) }),
{
    let mut l: usize = 0;
    while l < 8
        invariant
            0 <= l <= 8,
            st.judge_pops@ == old(st).judge_pops@,
            *st == (PlayState { timers: st.timers, ..*old(st) }),
            forall|i: int|
                0 <= i < 256 ==> st.timers@[i] == if TIMER_HOLD_1P_SCRATCH <= i < TIMER_HOLD_1P_SCRATCH + l {
                    if lane_holding(*lanes, i - TIMER_HOLD_1P_SCRATCH) { 0 } else { TIMER_OFF }
                } else {
                    old(st).timers@[i]
                },
        decreases 8 - l,
    {
        let mut active = false;
        let mut i: usize = 0;
        while i < lanes.len()
            invariant
                0 <= i <= lanes.entries().len(),
                active <==> exists|j: int|
                    0 <= j < i && key_lane((#[trigger] lanes.entries()[j]).0) == Some(l as int)
                        && lanes.entries()[j].1.ln.processing is Some,
            decreases lanes.entries().len() - i,
        {
            let (k, ls) = lanes.entry(i);
            let hit = match k {
                LaneKey::Scratch(_) => l == 0,
                LaneKey::Key(num) => num as usize == l,
                _ => false,
            };
            if hit && ls.ln.processing.is_some() {
                active = true;
            }
            i = i + 1;
        }
        st.timers[TIMER_HOLD_1P_SCRATCH + l] = if active { 0 } else { TIMER_OFF };
        l = l + 1;
    }
}

/// Height of the note window above the playback position: 1 / hi-speed
/// measures (hi-speed at least 0.1), at most 16 measures (millionths).
pub open spec fn note_window_um(hispeed_x100: int) -> int {
    let h = if hispeed_x100 > 10 { hispeed_x100 } else { 10 };
    let w = 100_000_000int / h;
    if w < 16_000_000 { w } else { 16_000_000 }
}

/// Skin note kind code: 1 long, 2 landmine, 3 hidden, 0 normal.
pub open spec fn note_kind_code(k: NoteType) -> u8 {
    match k {
        NoteType::Long => 1,
        NoteType::Landmine => 2,
        NoteType::Invisible => 3,
        NoteType::Visible => 0,
    }
}

/// The skin's view of note `i`.
pub open spec fn note_state_of(n: ChartNote, i: int, consumed: bool, lanes: LaneStates) -> NoteState {
    NoteState {
        idx: i as usize,
        lane: n.lane,
        position_um: n.position_um,
        length_um: n.length_um,
        kind: note_kind_code(n.kind),
        consumed: consumed,
        ln_active: exists|j: int| 0 <= j < lanes.entries().len() && (#[trigger] lanes.entries()[j]).1.ln.processing == Some(i as usize),
    }
}

/// Note `i` lies low enough to be drawn: at most two measures above the
/// top of the note window.
pub open spec fn note_in_window(n: ChartNote, now_um: int, hispeed_x100: int) -> bool {
    n.position_um <= now_um + note_window_um(hispeed_x100) + 2_000_000
}

/// The skin's notes: of the first `count` notes, those in the window.
pub open spec fn visible_notes_spec(notes: Seq<ChartNote>, consumed: Seq<bool>, lanes: LaneStates, now_um: int, hispeed_x100: int, count: int) -> Seq<NoteState>
    decreases count,
{
    if count <= 0 {
        Seq::empty()
    } else {
        let rest = visible_notes_spec(notes, consumed, lanes, now_um, hispeed_x100, count - 1);
        let n = notes[count - 1];
        if note_in_window(n, now_um, hispeed_x100) {
            rest.push(note_state_of(n, count - 1, consumed[count - 1], lanes))
        } else {
            rest
        }
    }
}

/// Refreshes the notes the skin draws from the first `limit` notes of the
/// chart (see [`visible_notes_spec`]), at the state's playback position and
/// scroll speed.
pub fn apply_visible_notes(st: &mut PlayState, notes: &Vec<ChartNote>, consumed: &Vec<bool>, lanes: &LaneStates, limit: usize)
    requires
        consumed@.len() == notes@.len(),
    ensures
        final(st).notes@ == visible_notes_spec(
            notes@,
            consumed@,
            *lanes,
            old(st).now_um as int,
            old(st).hispeed_x100 as int,
            if limit < notes@.len() { limit as int } else { notes@.len() as int },
        ),
        final(st).timers == old(st).timers,
        final(st).judge_pops@ == old(st).judge_pops@,
        *final(st) == (PlayState { notes: final(st).notes, ..*old(st) }),
{
    let count: usize = if limit < notes.len() { limit } else { notes.len() };
    let h: i128 = if (st.hispeed_x100 as i128) > 10 { st.hispeed_x100 as i128 } else { 10 };
    let w0: i128 = 100_000_000 / h;
    let w: i128 = if w0 < 16_000_000 { w0 } else { 16_000_000 };
    let top: i128 = (st.now_um as i128) + w + 2_000_000;
    let mut out: Vec<NoteState> = Vec::new();
    let mut i: usize = 0;
    while i < count
        invariant
            0 <= i <= count,
            count <= notes@.len(),
            consumed@.len() == notes@.len(),
            w == note_window_um(st.hispeed_x100 as int),
            top == st.now_um + w + 2_000_000,
            st.now_um == old(st).now_um,
            st.hispeed_x100 == old(st).hispeed_x100,
            st.timers == old(st).timers,
            st.judge_pops@ == old(st).judge_pops@,
            out@ == visible_notes_spec(notes@, consumed@, *lanes, st.now_um as int, st.hispeed_x100 as int, i as int),
        decreases count - i,
    {
        let n = notes[i];
        if (n.position_um as i128) <= top {
            let kind: u8 = match n.kind {
                NoteType::Long => 1,
                NoteType::Landmine => 2,
                NoteType::Invisible => 3,
                NoteType::Visible => 0,
            };
            let held = lanes.holds_note(i);
            out.push(NoteState {
                idx: i,
                lane: n.lane,
                position_um: n.position_um,
                length_um: n.length_um,
                kind,
                consumed: consumed[i],
                ln_active: held,
            });
        }
        i = i + 1;
    }
    st.notes = out;
}

} // verus!
