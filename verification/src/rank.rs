//! Play results: clear lamps and letter ranks.

use vstd::prelude::*;

verus! {

/// Clear lamp of a play, ordered from "not played" up to "all perfect greats".
///
/// A lamp only ever goes up: after a play the highest reached lamp is kept.
#[derive(Debug, Clone, Copy, PartialEq, Eq, PartialOrd, Ord, Structural)]
pub enum ClearType {
    /// Not played.
    NoPlay,
    /// Failed (gauge emptied).
    Failed,
    /// Cleared on the assist-easy gauge.
    AssistEasy,
    /// Cleared on the light-assist-easy gauge.
    LightAssistEasy,
    /// Cleared on the easy gauge.
    Easy,
    /// Cleared on the normal gauge.
    Normal,
    /// Cleared on the hard gauge.
    Hard,
    /// Cleared on the extra-hard gauge.
    ExHard,
    /// Full combo.
    FullCombo,
    /// Perfect (no judgement below great).
    Perfect,
    /// Max (every note a perfect great).
    Max,
}

/// The numeric id of each lamp (its position in the lamp order).
pub open spec fn clear_id(c: ClearType) -> int {
    match c {
        ClearType::NoPlay => 0,
        ClearType::Failed => 1,
        ClearType::AssistEasy => 2,
        ClearType::LightAssistEasy => 3,
        ClearType::Easy => 4,
        ClearType::Normal => 5,
        ClearType::Hard => 6,
        ClearType::ExHard => 7,
        ClearType::FullCombo => 8,
        ClearType::Perfect => 9,
        ClearType::Max => 10,
    }
}

/// Gauge type indices on which a lamp is earned.
pub open spec fn clear_gauge_ids(c: ClearType) -> Seq<i64> {
    match c {
        ClearType::LightAssistEasy => seq![0i64],
        ClearType::Easy => seq![1i64],
        ClearType::Normal => seq![2i64, 6],
        ClearType::Hard => seq![3i64, 7],
        ClearType::ExHard => seq![4i64, 8],
        ClearType::FullCombo => seq![5i64],
        _ => Seq::empty(),
    }
}

impl ClearType {
    /// The lamp with the given id; an unknown id gives `NoPlay`.
    pub fn from_id(id: i64) -> (c: Self)
        ensures
            (0 <= id <= 10) ==> clear_id(c) == id,
            !(0 <= id <= 10) ==> c == ClearType::NoPlay,
    {
        match id {
            1 => ClearType::Failed,
            2 => ClearType::AssistEasy,
            3 => ClearType::LightAssistEasy,
            4 => ClearType::Easy,
            5 => ClearType::Normal,
            6 => ClearType::Hard,
            7 => ClearType::ExHard,
            8 => ClearType::FullCombo,
            9 => ClearType::Perfect,
            10 => ClearType::Max,
            _ => ClearType::NoPlay,
        }
    }

    /// The gauge types whose clear gives this lamp.
    pub fn gauge_ids(self) -> (ids: &'static [i64])
        ensures
            ids@ == clear_gauge_ids(self),
    {
        match self {
            ClearType::LightAssistEasy => &[0],
            ClearType::Easy => &[1],
            ClearType::Normal => &[2, 6],
            ClearType::Hard => &[3, 7],
            ClearType::ExHard => &[4, 8],
            ClearType::FullCombo => &[5],
            _ => &[],
        }
    }
}

/// Every lamp is found again from its id.
pub proof fn lemma_clear_id_roundtrip(c: ClearType)
    ensures
        0 <= clear_id(c) <= 10,
        forall|r: ClearType| clear_id(r) == clear_id(c) ==> r == c,
{
}

/// Letter rank of a play, from best (`AAA`) to worst (`F`).
///
/// The rank is read off the EX-score rate on a 27-step scale: with
/// `rate = ex / max_ex`, the step index is `floor(27 * rate)`, and
/// AAA needs step 24 (8/9), AA step 21 (7/9), A step 18 (6/9), B step 15,
/// C step 12, D step 9, E step 6; below that the rank is F.
#[derive(Debug, Clone, Copy, PartialEq, Eq, PartialOrd, Ord, Structural)]
pub enum Rank {
    /// Rate at least 24/27.
    AAA,
    /// Rate at least 21/27.
    AA,
    /// Rate at least 18/27.
    A,
    /// Rate at least 15/27.
    B,
    /// Rate at least 12/27.
    C,
    /// Rate at least 9/27.
    D,
    /// Rate at least 6/27.
    E,
    /// Rate below 6/27.
    F,
}

/// Number of steps on the rank scale.
pub const RANK_STEPS: i64 = 27;

/// The rank reached at a given step of the 27-step scale.
pub open spec fn rank_of_step(step: int) -> Rank {
    if step >= 24 {
        Rank::AAA
    } else if step >= 21 {
        Rank::AA
    } else if step >= 18 {
        Rank::A
    } else if step >= 15 {
        Rank::B
    } else if step >= 12 {
        Rank::C
    } else if step >= 9 {
        Rank::D
    } else if step >= 6 {
        Rank::E
    } else {
        Rank::F
    }
}

/// The step of the 27-step scale reached by `ex` out of `max_ex` (capped at 27).
pub open spec fn rate_step(ex: nat, max_ex: nat) -> int
    recommends
        max_ex > 0,
{
    let s: int = (27 * ex as int) / (max_ex as int);
    if s > 27 {
        27
    } else {
        s
    }
}

/// The rank for `ex` out of `max_ex`; no notes (`max_ex == 0`) gives F.
pub open spec fn rank_of_score(ex: nat, max_ex: nat) -> Rank {
    if max_ex == 0 {
        Rank::F
    } else {
        rank_of_step(rate_step(ex, max_ex))
    }
}

/// Position of a rank, best first (`AAA` is 0, `F` is 7).
pub open spec fn rank_pos(r: Rank) -> int {
    match r {
        Rank::AAA => 0,
        Rank::AA => 1,
        Rank::A => 2,
        Rank::B => 3,
        Rank::C => 4,
        Rank::D => 5,
        Rank::E => 6,
        Rank::F => 7,
    }
}

/// Display name of a rank.
pub open spec fn rank_label(r: Rank) -> Seq<char> {
    match r {
        Rank::AAA => "AAA"@,
        Rank::AA => "AA"@,
        Rank::A => "A"@,
        Rank::B => "B"@,
        Rank::C => "C"@,
        Rank::D => "D"@,
        Rank::E => "E"@,
        Rank::F => "F"@,
    }
}

impl Rank {
    /// The rank at a step of the 27-step scale (steps are clamped to `0..=27`).
    pub fn from_step(step: i64) -> (r: Self)
        ensures
            r == rank_of_step(step as int),
    {
        let idx = if step < 0 {
            0
        } else if step > RANK_STEPS {
            RANK_STEPS
        } else {
            step
        };
        if idx >= 24 {
            Rank::AAA
        } else if idx >= 21 {
            Rank::AA
        } else if idx >= 18 {
            Rank::A
        } else if idx >= 15 {
            Rank::B
        } else if idx >= 12 {
            Rank::C
        } else if idx >= 9 {
            Rank::D
        } else if idx >= 6 {
            Rank::E
        } else {
            Rank::F
        }
    }

    /// The rank for an EX score out of the maximum EX score.
    pub fn from_ex_score(ex: u32, max_ex: u32) -> (r: Self)
        ensures
            r == rank_of_score(ex as nat, max_ex as nat),
    {
        if max_ex == 0 {
            return Rank::F;
        }
        let scaled: u64 = 27u64 * (ex as u64);
        let step: u64 = scaled / (max_ex as u64);
        let step: i64 = if step > 27 {
            RANK_STEPS
        } else {
            step as i64
        };
        Self::from_step(step)
    }

    /// Display name.
    pub fn label(self) -> (s: &'static str)
        ensures
            s@ == rank_label(self),
    {
        match self {
            Rank::AAA => "AAA",
            Rank::AA => "AA",
            Rank::A => "A",
            Rank::B => "B",
            Rank::C => "C",
            Rank::D => "D",
            Rank::E => "E",
            Rank::F => "F",
        }
    }
}

/// A higher step never gives a worse rank.
pub proof fn lemma_rank_of_step_monotone(s1: int, s2: int)
    requires
        s1 <= s2,
    ensures
        rank_pos(rank_of_step(s2)) <= rank_pos(rank_of_step(s1)),
{
}

/// For a fixed maximum, a higher EX score never gives a worse rank.
pub proof fn lemma_rank_monotone_in_score(ex1: nat, ex2: nat, max_ex: nat)
    requires
        ex1 <= ex2,
    ensures
        rank_pos(rank_of_score(ex2, max_ex)) <= rank_pos(rank_of_score(ex1, max_ex)),
{
    if max_ex > 0 {
        assert(27 * ex1 <= 27 * ex2);
        vstd::arithmetic::div_mod::lemma_div_is_ordered(27 * ex1 as int, 27 * ex2 as int, max_ex as int);
        lemma_rank_of_step_monotone(rate_step(ex1, max_ex), rate_step(ex2, max_ex));
    }
}

/// A full score (`ex == max_ex > 0`) is always AAA.
pub proof fn lemma_full_score_is_aaa(max_ex: nat)
    requires
        max_ex > 0,
    ensures
        rank_of_score(max_ex, max_ex) == Rank::AAA,
{
    vstd::arithmetic::div_mod::lemma_div_multiples_vanish(27, max_ex as int);
    assert((27 * max_ex as int) / (max_ex as int) == 27) by (nonlinear_arith)
        requires max_ex > 0;
}

/// The grade of `ex` out of `max_ex` by ninths of the maximum: AAA from
/// 8/9, AA from 7/9, A from 6/9, B from 5/9, C from 4/9, D from 3/9, E from
/// 2/9, else F (no notes: F).
pub open spec fn grade_spec(ex: nat, max_ex: nat) -> Seq<char> {
    if max_ex == 0 {
        "F"@
    } else if 9 * ex >= 8 * max_ex {
        "AAA"@
    } else if 9 * ex >= 7 * max_ex {
        "AA"@
    } else if 9 * ex >= 6 * max_ex {
        "A"@
    } else if 9 * ex >= 5 * max_ex {
        "B"@
    } else if 9 * ex >= 4 * max_ex {
        "C"@
    } else if 9 * ex >= 3 * max_ex {
        "D"@
    } else if 9 * ex >= 2 * max_ex {
        "E"@
    } else {
        "F"@
    }
}

/// The grade of an EX score (see [`grade_spec`]).
pub fn grade(ex: u32, max_ex: u32) -> (s: &'static str)
    ensures
        s@ == grade_spec(ex as nat, max_ex as nat),
{
    if max_ex == 0 {
        return "F";
    }
    let e: u64 = 9 * (ex as u64);
    let m: u64 = max_ex as u64;
    if e >= 8 * m {
        "AAA"
    } else if e >= 7 * m {
        "AA"
    } else if e >= 6 * m {
        "A"
    } else if e >= 5 * m {
        "B"
    } else if e >= 4 * m {
        "C"
    } else if e >= 3 * m {
        "D"
    } else if e >= 2 * m {
        "E"
    } else {
        "F"
    }
}

/// Reaching `k` ninths of the maximum is reaching step `3k` of the 27-step scale.
proof fn lemma_ninths_step(ex: nat, max_ex: nat, k: int)
    requires
        max_ex > 0,
        0 <= k <= 9,
    ensures
        (9 * ex >= k * max_ex) <==> ((27 * ex as int) / (max_ex as int) >= 3 * k),
{
    assert((9 * ex >= k * max_ex) <==> ((27 * ex as int) / (max_ex as int) >= 3 * k)) by (nonlinear_arith)
        requires
            max_ex > 0,
            0 <= k <= 9,
    {
        let q = (27 * ex as int) / (max_ex as int);
        let r = (27 * ex as int) % (max_ex as int);
        assert(27 * ex as int == q * max_ex + r);
        assert(0 <= r < max_ex);
        if 9 * ex >= k * max_ex {
            assert(27 * ex as int >= 3 * k * max_ex);
            if q < 3 * k {
                assert(q <= 3 * k - 1);
                assert(q * max_ex <= (3 * k - 1) * max_ex);
            }
        }
        if q >= 3 * k {
            assert(q * max_ex >= 3 * k * max_ex);
        }
    }
}

/// The grade by ninths is the label of the rank on the 27-step scale.
pub proof fn lemma_grade_is_rank_label(ex: nat, max_ex: nat)
    ensures
        grade_spec(ex, max_ex) == rank_label(rank_of_score(ex, max_ex)),
{
    if max_ex > 0 {
        lemma_ninths_step(ex, max_ex, 8);
        lemma_ninths_step(ex, max_ex, 7);
        lemma_ninths_step(ex, max_ex, 6);
        lemma_ninths_step(ex, max_ex, 5);
        lemma_ninths_step(ex, max_ex, 4);
        lemma_ninths_step(ex, max_ex, 3);
        lemma_ninths_step(ex, max_ex, 2);
    }
}

/// The maximum EX score of a chart with `note_count` notes: twice the count
/// (the count taken modulo 2^32), saturating at `u32::MAX`.
pub fn max_ex_score(note_count: usize) -> (m: u32)
    ensures
        m == (if 2 * ((note_count as int) % 0x1_0000_0000) > u32::MAX { u32::MAX as int } else { 2 * ((note_count as int) % 0x1_0000_0000) }),
{
    let n: u32 = ((note_count as u64) % 0x1_0000_0000) as u32;
    if n > u32::MAX / 2 {
        u32::MAX
    } else {
        n * 2
    }
}

} // verus!
