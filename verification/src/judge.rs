//! Timing judgement, judgement counts, combo and EX score.
//!
//! Judgement windows follow the Lunatic Rave 2 defaults chosen by `#RANK`:
//!
//! | level    | PGREAT | GREAT | GOOD  | BAD   | early POOR |
//! |----------|--------|-------|-------|-------|------------|
//! | Easy     | ±21ms  | ±60ms | ±120ms| ±200ms| -1000ms    |
//! | Normal   | ±18ms  | ±40ms | ±100ms| ±200ms| -1000ms    |
//! | Hard     | ±15ms  | ±30ms | ±60ms | ±200ms| -1000ms    |
//! | VeryHard | ±8ms   | ±24ms | ±40ms | ±200ms| -100ms     |
//!
//! A press earlier than the BAD window but inside the early-POOR window is an
//! "air POOR": counted, but it neither breaks the combo nor consumes a note.
//! A note that passes unhit is a POOR, which breaks the combo.
//! EX score = 2 × PGREAT + GREAT.

use vstd::prelude::*;

verus! {

/// A judgement grade.
#[derive(Debug, Clone, Copy, PartialEq, Eq, Structural)]
pub enum Judgement {
    /// Perfect great.
    Pg,
    /// Great.
    Gr,
    /// Good.
    Gd,
    /// Bad (breaks the combo).
    Bd,
    /// Poor: a note passed unhit (breaks the combo).
    Pr,
    /// Air poor: an early or extra press (keeps the combo, consumes no note).
    AirPoor,
}

/// Quality order of the grades hit inside the BAD window (lower is better).
pub open spec fn judgement_pos(j: Judgement) -> int {
    match j {
        Judgement::Pg => 0,
        Judgement::Gr => 1,
        Judgement::Gd => 2,
        Judgement::Bd => 3,
        Judgement::Pr => 4,
        Judgement::AirPoor => 5,
    }
}

/// Display name of a grade.
pub open spec fn judgement_label(j: Judgement) -> Seq<char> {
    match j {
        Judgement::Pg => "PG"@,
        Judgement::Gr => "GR"@,
        Judgement::Gd => "GD"@,
        Judgement::Bd => "BD"@,
        Judgement::Pr => "PR"@,
        Judgement::AirPoor => "POOR"@,
    }
}

impl Judgement {
    /// Display name.
    pub fn label(self) -> (s: &'static str)
        ensures
            s@ == judgement_label(self),
    {
        match self {
            Judgement::Pg => "PG",
            Judgement::Gr => "GR",
            Judgement::Gd => "GD",
            Judgement::Bd => "BD",
            Judgement::Pr => "PR",
            Judgement::AirPoor => "POOR",
        }
    }
}

/// Judgement difficulty chosen by a chart's `#RANK`.
#[derive(Debug, Clone, Copy, PartialEq, Eq, Structural)]
pub enum JudgeLevel {
    /// Rank 0, the strictest.
    VeryHard,
    /// Rank 1.
    Hard,
    /// Rank 2.
    Normal,
    /// Rank 3, the most lenient.
    Easy,
    /// Any other integer value (judged as `Normal`).
    OtherInt(i64),
}

/// Judgement windows in milliseconds.
#[derive(Debug, Clone, Copy, PartialEq, Eq, Structural)]
pub struct JudgeWindows {
    pub pg_ms: i64,
    pub gr_ms: i64,
    pub gd_ms: i64,
    pub bd_ms: i64,
    /// Early-POOR window: a press earlier than `bd_ms` but not earlier than
    /// this is an air POOR.
    pub early_poor_ms: i64,
}

/// The window table of a judgement level.
pub open spec fn windows_of(level: JudgeLevel) -> JudgeWindows {
    match level {
        JudgeLevel::VeryHard => JudgeWindows { pg_ms: 8, gr_ms: 24, gd_ms: 40, bd_ms: 200, early_poor_ms: 100 },
        JudgeLevel::Hard => JudgeWindows { pg_ms: 15, gr_ms: 30, gd_ms: 60, bd_ms: 200, early_poor_ms: 1000 },
        JudgeLevel::Easy => JudgeWindows { pg_ms: 21, gr_ms: 60, gd_ms: 120, bd_ms: 200, early_poor_ms: 1000 },
        _ => JudgeWindows { pg_ms: 18, gr_ms: 40, gd_ms: 100, bd_ms: 200, early_poor_ms: 1000 },
    }
}

/// Windows are nested: `0 <= PG <= GR <= GD <= BD`.
pub open spec fn windows_nested(w: JudgeWindows) -> bool {
    0 <= w.pg_ms <= w.gr_ms <= w.gd_ms <= w.bd_ms
}

impl JudgeWindows {
    /// The windows of a `#RANK` judgement level (LR2 table).
    pub fn for_level(level: JudgeLevel) -> (w: Self)
        ensures
            w == windows_of(level),
    {
        match level {
            JudgeLevel::VeryHard => JudgeWindows { pg_ms: 8, gr_ms: 24, gd_ms: 40, bd_ms: 200, early_poor_ms: 100 },
            JudgeLevel::Hard => JudgeWindows { pg_ms: 15, gr_ms: 30, gd_ms: 60, bd_ms: 200, early_poor_ms: 1000 },
            JudgeLevel::Easy => JudgeWindows { pg_ms: 21, gr_ms: 60, gd_ms: 120, bd_ms: 200, early_poor_ms: 1000 },
            _ => JudgeWindows { pg_ms: 18, gr_ms: 40, gd_ms: 100, bd_ms: 200, early_poor_ms: 1000 },
        }
    }
}

impl Default for JudgeWindows {
    /// The `Normal` windows.
    fn default() -> (w: Self)
        ensures
            w == windows_of(JudgeLevel::Normal),
    {
        Self::for_level(JudgeLevel::Normal)
    }
}

/// Absolute value.
pub open spec fn abs(x: int) -> int {
    if x < 0 {
        -x
    } else {
        x
    }
}

/// The judgement of a press `delta_us` microseconds after the note
/// (negative = early); `None` when the press is ignored.
pub open spec fn judge_spec(delta_us: int, w: JudgeWindows) -> Option<Judgement> {
    let bd = w.bd_ms * 1000;
    if -bd <= delta_us <= bd {
        let a = abs(delta_us);
        if a <= w.pg_ms * 1000 {
            Some(Judgement::Pg)
        } else if a <= w.gr_ms * 1000 {
            Some(Judgement::Gr)
        } else if a <= w.gd_ms * 1000 {
            Some(Judgement::Gd)
        } else {
            Some(Judgement::Bd)
        }
    } else if delta_us < -bd && delta_us >= -w.early_poor_ms * 1000 {
        Some(Judgement::AirPoor)
    } else {
        None
    }
}

/// Judges a press made `delta_us` microseconds after the note time
/// (negative = early).
///
/// Inside the BAD window the grade follows the absolute offset; earlier than
/// that but inside the early-POOR window it is an air POOR; anything else
/// (too early, or later than the BAD window, which miss detection handles)
/// gives `None`.
pub fn judge(delta_us: i64, w: &JudgeWindows) -> (r: Option<Judgement>)
    ensures
        r == judge_spec(delta_us as int, *w),
{
    let d = delta_us as i128;
    let bd = (w.bd_ms as i128) * 1000;
    if -bd <= d && d <= bd {
        let a = if d < 0 {
            -d
        } else {
            d
        };
        if a <= (w.pg_ms as i128) * 1000 {
            Some(Judgement::Pg)
        } else if a <= (w.gr_ms as i128) * 1000 {
            Some(Judgement::Gr)
        } else if a <= (w.gd_ms as i128) * 1000 {
            Some(Judgement::Gd)
        } else {
            Some(Judgement::Bd)
        }
    } else if d < -bd && d >= -(w.early_poor_ms as i128) * 1000 {
        Some(Judgement::AirPoor)
    } else {
        None
    }
}

/// Early or late side of a judgement (fast/slow statistics).
#[derive(Debug, Clone, Copy, PartialEq, Eq, Structural)]
pub enum JudgeDir {
    /// No side (air POOR, auto play, tail judgement).
    Neutral,
    /// Early (fast).
    Early,
    /// Late (slow).
    Late,
}

/// Judgement statistics of a play.
#[derive(Debug, Clone, Copy, PartialEq, Eq, Structural)]
pub struct JudgeState {
    pub pg: u32,
    pub gr: u32,
    pub gd: u32,
    pub bd: u32,
    pub pr: u32,
    /// Air POOR count (does not break the combo).
    pub air_poor: u32,
    /// Early judgements (fast).
    pub early: u32,
    /// Late judgements (slow).
    pub late: u32,
    /// Combo breaks (one per BAD or POOR).
    pub combo_break: u32,
    /// Current combo.
    pub combo: u32,
    /// Highest combo so far.
    pub max_combo: u32,
    /// EX score (2 × PG + GR).
    pub ex_score: u32,
}

/// The statistics before any judgement.
pub open spec fn judge_state_zero() -> JudgeState {
    JudgeState {
        pg: 0,
        gr: 0,
        gd: 0,
        bd: 0,
        pr: 0,
        air_poor: 0,
        early: 0,
        late: 0,
        combo_break: 0,
        combo: 0,
        max_combo: 0,
        ex_score: 0,
    }
}

impl Default for JudgeState {
    /// All counters zero.
    fn default() -> (s: Self)
        ensures
            s == judge_state_zero(),
    {
        JudgeState {
            pg: 0,
            gr: 0,
            gd: 0,
            bd: 0,
            pr: 0,
            air_poor: 0,
            early: 0,
            late: 0,
            combo_break: 0,
            combo: 0,
            max_combo: 0,
            ex_score: 0,
        }
    }
}

/// No counter that `record(j, dir)` raises is at its limit.
pub open spec fn can_record(s: JudgeState, j: Judgement, dir: JudgeDir) -> bool {
    &&& match j {
        Judgement::Pg => s.pg < u32::MAX && s.combo < u32::MAX && s.ex_score + 2 <= u32::MAX,
        Judgement::Gr => s.gr < u32::MAX && s.combo < u32::MAX && s.ex_score < u32::MAX,
        Judgement::Gd => s.gd < u32::MAX && s.combo < u32::MAX,
        Judgement::Bd => s.bd < u32::MAX && s.combo_break < u32::MAX,
        Judgement::Pr => s.pr < u32::MAX && s.combo_break < u32::MAX,
        Judgement::AirPoor => s.air_poor < u32::MAX,
    }
    &&& match dir {
        JudgeDir::Early => s.early < u32::MAX,
        JudgeDir::Late => s.late < u32::MAX,
        JudgeDir::Neutral => true,
    }
}

/// The statistics after recording judgement `j` on side `dir`.
pub open spec fn record_spec(s: JudgeState, j: Judgement, dir: JudgeDir) -> JudgeState {
    let a = match j {
        Judgement::Pg => JudgeState { pg: (s.pg + 1) as u32, combo: (s.combo + 1) as u32, ex_score: (s.ex_score + 2) as u32, ..s },
        Judgement::Gr => JudgeState { gr: (s.gr + 1) as u32, combo: (s.combo + 1) as u32, ex_score: (s.ex_score + 1) as u32, ..s },
        Judgement::Gd => JudgeState { gd: (s.gd + 1) as u32, combo: (s.combo + 1) as u32, ..s },
        Judgement::Bd => JudgeState { bd: (s.bd + 1) as u32, combo: 0, combo_break: (s.combo_break + 1) as u32, ..s },
        Judgement::Pr => JudgeState { pr: (s.pr + 1) as u32, combo: 0, combo_break: (s.combo_break + 1) as u32, ..s },
        Judgement::AirPoor => JudgeState { air_poor: (s.air_poor + 1) as u32, ..s },
    };
    let b = match dir {
        JudgeDir::Early => JudgeState { early: (a.early + 1) as u32, ..a },
        JudgeDir::Late => JudgeState { late: (a.late + 1) as u32, ..a },
        JudgeDir::Neutral => a,
    };
    JudgeState { max_combo: if b.combo > b.max_combo { b.combo } else { b.max_combo }, ..b }
}

/// Number of judged notes (air POORs excluded).
pub open spec fn judged_spec(s: JudgeState) -> int {
    s.pg + s.gr + s.gd + s.bd + s.pr
}

/// The relations between the counters that every reachable state keeps.
pub open spec fn judge_state_consistent(s: JudgeState) -> bool {
    &&& s.ex_score == 2 * s.pg + s.gr
    &&& s.combo <= s.max_combo
    &&& s.combo_break == s.bd + s.pr
    &&& s.early + s.late <= judged_spec(s) + s.air_poor
    &&& s.max_combo <= s.pg + s.gr + s.gd
}

impl JudgeState {
    /// Records one judgement: counts, combo, EX score and fast/slow.
    pub fn record(&mut self, j: Judgement, dir: JudgeDir)
        requires
            can_record(*old(self), j, dir),
        ensures
            *final(self) == record_spec(*old(self), j, dir),
    {
        match j {
            Judgement::Pg => {
                self.pg = self.pg + 1;
                self.combo = self.combo + 1;
                self.ex_score = self.ex_score + 2;
            },
            Judgement::Gr => {
                self.gr = self.gr + 1;
                self.combo = self.combo + 1;
                self.ex_score = self.ex_score + 1;
            },
            Judgement::Gd => {
                self.gd = self.gd + 1;
                self.combo = self.combo + 1;
            },
            Judgement::Bd => {
                self.bd = self.bd + 1;
                self.combo = 0;
                self.combo_break = self.combo_break + 1;
            },
            Judgement::Pr => {
                self.pr = self.pr + 1;
                self.combo = 0;
                self.combo_break = self.combo_break + 1;
            },
            Judgement::AirPoor => {
                self.air_poor = self.air_poor + 1;
            },
        }
        match dir {
            JudgeDir::Early => {
                self.early = self.early + 1;
            },
            JudgeDir::Late => {
                self.late = self.late + 1;
            },
            JudgeDir::Neutral => {},
        }
        if self.combo > self.max_combo {
            self.max_combo = self.combo;
        }
    }

    /// Number of judged notes (air POORs excluded).
    pub fn judged(&self) -> (n: u32)
        requires
            judged_spec(*self) <= u32::MAX,
        ensures
            n == judged_spec(*self),
    {
        self.pg + self.gr + self.gd + self.bd + self.pr
    }
}

/// Gauge types, in index order 0..=8.
#[derive(Debug, Clone, Copy, PartialEq, Eq, Structural)]
pub enum GaugeType {
    AssistEasy,
    Easy,
    Normal,
    Hard,
    ExHard,
    Hazard,
    Class,
    ExClass,
    ExHardClass,
}

/// The persisted index of a gauge type.
pub open spec fn gauge_id(t: GaugeType) -> int {
    match t {
        GaugeType::AssistEasy => 0,
        GaugeType::Easy => 1,
        GaugeType::Normal => 2,
        GaugeType::Hard => 3,
        GaugeType::ExHard => 4,
        GaugeType::Hazard => 5,
        GaugeType::Class => 6,
        GaugeType::ExClass => 7,
        GaugeType::ExHardClass => 8,
    }
}

impl GaugeType {
    /// The gauge type with a persisted index; `None` outside `0..=8`.
    pub fn from_id(id: i64) -> (t: Option<Self>)
        ensures
            t matches Some(g) ==> gauge_id(g) == id,
            t is None <==> !(0 <= id <= 8),
    {
        match id {
            0 => Some(GaugeType::AssistEasy),
            1 => Some(GaugeType::Easy),
            2 => Some(GaugeType::Normal),
            3 => Some(GaugeType::Hard),
            4 => Some(GaugeType::ExHard),
            5 => Some(GaugeType::Hazard),
            6 => Some(GaugeType::Class),
            7 => Some(GaugeType::ExClass),
            8 => Some(GaugeType::ExHardClass),
            _ => None,
        }
    }

    /// The persisted index.
    pub fn id(self) -> (id: i64)
        ensures
            id == gauge_id(self),
    {
        match self {
            GaugeType::AssistEasy => 0,
            GaugeType::Easy => 1,
            GaugeType::Normal => 2,
            GaugeType::Hard => 3,
            GaugeType::ExHard => 4,
            GaugeType::Hazard => 5,
            GaugeType::Class => 6,
            GaugeType::ExClass => 7,
            GaugeType::ExHardClass => 8,
        }
    }
}

// ---------------------------------------------------------------- laws

/// Every level's windows are nested, and the BAD window is 200 ms.
pub proof fn lemma_level_windows_nested(level: JudgeLevel)
    ensures
        windows_nested(windows_of(level)),
        windows_of(level).bd_ms == 200,
{
}

/// Inside the BAD window an early press and a late press by the same amount
/// get the same grade.
pub proof fn lemma_judge_symmetric(delta_us: int, w: JudgeWindows)
    requires
        abs(delta_us) <= w.bd_ms * 1000,
    ensures
        judge_spec(delta_us, w) == judge_spec(-delta_us, w),
{
}

/// With nested windows, a press closer to the note never gets a worse grade.
pub proof fn lemma_judge_closer_not_worse(d1: int, d2: int, w: JudgeWindows)
    requires
        windows_nested(w),
        abs(d1) <= abs(d2) <= w.bd_ms * 1000,
    ensures
        judge_spec(d1, w) is Some,
        judge_spec(d2, w) is Some,
        judgement_pos(judge_spec(d1, w).unwrap()) <= judgement_pos(judge_spec(d2, w).unwrap()),
{
}

/// A press later than the BAD window is never judged by a press.
pub proof fn lemma_judge_late_ignored(delta_us: int, w: JudgeWindows)
    requires
        delta_us > w.bd_ms * 1000,
        w.bd_ms >= 0,
    ensures
        judge_spec(delta_us, w) is None,
{
}

/// Recording keeps the counters consistent: EX score stays 2 × PG + GR, the
/// combo never exceeds the best combo, every BAD and POOR is one combo break,
/// and the best combo never exceeds the combo-keeping hits.
pub proof fn lemma_record_keeps_consistent(s: JudgeState, j: Judgement, dir: JudgeDir)
    requires
        judge_state_consistent(s),
        can_record(s, j, dir),
    ensures
        judge_state_consistent(record_spec(s, j, dir)),
{
}

/// The zero state is consistent.
pub proof fn lemma_zero_consistent()
    ensures
        judge_state_consistent(judge_state_zero()),
{
}

/// An air POOR keeps the combo and the judged-note count unchanged.
pub proof fn lemma_air_poor_keeps_combo(s: JudgeState, dir: JudgeDir)
    requires
        can_record(s, Judgement::AirPoor, dir),
    ensures
        record_spec(s, Judgement::AirPoor, dir).combo == s.combo,
        judged_spec(record_spec(s, Judgement::AirPoor, dir)) == judged_spec(s),
        record_spec(s, Judgement::AirPoor, dir).ex_score == s.ex_score,
{
}

/// A BAD or POOR resets the combo; every other grade that is not an air POOR
/// raises it by one.
pub proof fn lemma_record_combo(s: JudgeState, j: Judgement, dir: JudgeDir)
    requires
        can_record(s, j, dir),
    ensures
        (j == Judgement::Bd || j == Judgement::Pr) ==> record_spec(s, j, dir).combo == 0,
        (j == Judgement::Pg || j == Judgement::Gr || j == Judgement::Gd)
            ==> record_spec(s, j, dir).combo == s.combo + 1,
        record_spec(s, j, dir).max_combo >= s.max_combo,
        j != Judgement::AirPoor ==> judged_spec(record_spec(s, j, dir)) == judged_spec(s) + 1,
{
}

/// Each persisted index names exactly one gauge type.
pub proof fn lemma_gauge_id_injective(a: GaugeType, b: GaugeType)
    ensures
        0 <= gauge_id(a) <= 8,
        gauge_id(a) == gauge_id(b) ==> a == b,
{
}


/// The LR2 judgement table: each `#RANK` level's windows (ms), widening
/// strictly from VeryHard through Hard and Normal to Easy in the PG, GR and
/// GD windows, with the same 200 ms BAD window; unknown ranks judge as
/// Normal.
pub proof fn lemma_rank_table(n: i64)
    ensures
        windows_of(JudgeLevel::VeryHard) == (JudgeWindows { pg_ms: 8, gr_ms: 24, gd_ms: 40, bd_ms: 200, early_poor_ms: 100 }),
        windows_of(JudgeLevel::Hard) == (JudgeWindows { pg_ms: 15, gr_ms: 30, gd_ms: 60, bd_ms: 200, early_poor_ms: 1000 }),
        windows_of(JudgeLevel::Normal) == (JudgeWindows { pg_ms: 18, gr_ms: 40, gd_ms: 100, bd_ms: 200, early_poor_ms: 1000 }),
        windows_of(JudgeLevel::Easy) == (JudgeWindows { pg_ms: 21, gr_ms: 60, gd_ms: 120, bd_ms: 200, early_poor_ms: 1000 }),
        windows_of(JudgeLevel::OtherInt(n)) == windows_of(JudgeLevel::Normal),
        windows_of(JudgeLevel::VeryHard).gd_ms < windows_of(JudgeLevel::Hard).gd_ms < windows_of(JudgeLevel::Normal).gd_ms
            < windows_of(JudgeLevel::Easy).gd_ms,
        windows_of(JudgeLevel::VeryHard).gr_ms < windows_of(JudgeLevel::Hard).gr_ms < windows_of(JudgeLevel::Normal).gr_ms
            < windows_of(JudgeLevel::Easy).gr_ms,
        windows_of(JudgeLevel::VeryHard).pg_ms < windows_of(JudgeLevel::Hard).pg_ms < windows_of(JudgeLevel::Normal).pg_ms
            < windows_of(JudgeLevel::Easy).pg_ms,
{
}

/// On a `#RANK 1` (Hard) chart a press 60-200 ms off the note is a BAD,
/// where `#RANK 2` (Normal) still gives a GOOD up to 100 ms.
pub proof fn lemma_hard_bad_band(delta_us: int)
    requires
        60_000 < abs(delta_us) <= 200_000,
    ensures
        judge_spec(delta_us, windows_of(JudgeLevel::Hard)) == Some(Judgement::Bd),
        abs(delta_us) <= 100_000 ==> judge_spec(delta_us, windows_of(JudgeLevel::Normal)) == Some(Judgement::Gd),
{
}
} // verus!
