use rxbms::judge::{judge, GaugeType, JudgeDir, JudgeLevel, JudgeState, JudgeWindows, Judgement};

#[test]
fn lr2_normal_windows() {
    let w = JudgeWindows::default(); // Normal
    assert_eq!(judge(0, &w), Some(Judgement::Pg));
    assert_eq!(judge(18_000, &w), Some(Judgement::Pg));
    assert_eq!(judge(30_000, &w), Some(Judgement::Gr));
    assert_eq!(judge(-50_000, &w), Some(Judgement::Gd)); // 50 ms > GR 40
    assert_eq!(judge(80_000, &w), Some(Judgement::Gd));
    assert_eq!(judge(150_000, &w), Some(Judgement::Bd));
    assert_eq!(judge(200_000, &w), Some(Judgement::Bd));
    // early air POOR (beyond -200 ms, within -1000 ms)
    assert_eq!(judge(-300_000, &w), Some(Judgement::AirPoor));
    assert_eq!(judge(-999_000, &w), Some(Judgement::AirPoor));
    // far too early: ignored
    assert_eq!(judge(-1_100_000, &w), None);
    // too late: left to miss detection
    assert_eq!(judge(250_000, &w), None);
}

#[test]
fn level_windows() {
    let vh = JudgeWindows::for_level(JudgeLevel::VeryHard);
    assert_eq!(judge(5_000, &vh), Some(Judgement::Pg)); // 8 ms
    assert_eq!(judge(20_000, &vh), Some(Judgement::Gr)); // 24 ms
    assert_eq!(judge(80_000, &vh), Some(Judgement::Bd)); // 40 < 80 <= 200
    assert_eq!(judge(-150_000, &vh), Some(Judgement::Bd)); // inside BAD
    assert_eq!(judge(-300_000, &vh), None); // earlier than the 100 ms early window
    let easy = JudgeWindows::for_level(JudgeLevel::Easy);
    assert_eq!(judge(10_000, &easy), Some(Judgement::Pg)); // 21 ms
    assert_eq!(judge(30_000, &easy), Some(Judgement::Gr)); // 30 ms > 21
}

#[test]
fn state_accumulates() {
    let mut s = JudgeState::default();
    s.record(Judgement::Pg, JudgeDir::Early);
    s.record(Judgement::Pg, JudgeDir::Neutral);
    s.record(Judgement::Gr, JudgeDir::Late);
    s.record(Judgement::AirPoor, JudgeDir::Neutral); // keeps the combo
    s.record(Judgement::Pr, JudgeDir::Neutral); // breaks it
    s.record(Judgement::Gd, JudgeDir::Early);
    assert_eq!(s.pg, 2);
    assert_eq!(s.gr, 1);
    assert_eq!(s.air_poor, 1);
    assert_eq!(s.pr, 1);
    assert_eq!(s.combo, 1); // Gd after Pr restarts at 1
    assert_eq!(s.max_combo, 3);
    assert_eq!(s.ex_score, 5); // 2 + 2 + 1
    assert_eq!(s.judged(), 5); // air POOR excluded
    assert_eq!(s.early, 2, "fast = early judgements");
    assert_eq!(s.late, 1, "slow = late judgements");
    assert_eq!(s.combo_break, 1, "combo breaks");
}

#[test]
fn judge_is_symmetric_inside_bad() {
    let w = JudgeWindows::default();
    for d in [0i64, 1, 17_999, 18_000, 18_001, 40_000, 99_999, 100_001, 199_999, 200_000] {
        assert_eq!(judge(d, &w), judge(-d, &w), "d={d}");
    }
}

#[test]
fn judgement_labels_and_gauge_ids() {
    assert_eq!(Judgement::Pg.label(), "PG");
    assert_eq!(Judgement::AirPoor.label(), "POOR");
    for id in 0..=8 {
        let t = GaugeType::from_id(id).expect("ids 0-8 name gauge types");
        assert_eq!(t.id(), id);
    }
    assert!(GaugeType::from_id(9).is_none());
    assert!(GaugeType::from_id(-1).is_none());
}

#[test]
fn bad_and_poor_break_combo_air_poor_does_not() {
    let mut s = JudgeState::default();
    s.record(Judgement::Pg, JudgeDir::Neutral);
    s.record(Judgement::AirPoor, JudgeDir::Neutral);
    assert_eq!(s.combo, 1);
    s.record(Judgement::Bd, JudgeDir::Late);
    assert_eq!(s.combo, 0);
    assert_eq!(s.combo_break, 1);
    assert_eq!(s.ex_score, 2);
}
