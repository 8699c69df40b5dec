use rxbms::rank::{grade, max_ex_score, ClearType, Rank};

#[test]
fn rank_from_ex_score() {
    assert_eq!(Rank::from_ex_score(0, 100), Rank::F);
    assert_eq!(Rank::from_ex_score(100, 100), Rank::AAA);
    assert_eq!(Rank::from_ex_score(90, 100), Rank::AAA);
    assert_eq!(Rank::from_ex_score(80, 100), Rank::AA);
    assert_eq!(Rank::from_ex_score(70, 100), Rank::A);
    assert_eq!(Rank::from_ex_score(0, 0), Rank::F, "no notes gives F");
}

#[test]
fn clear_type_id_and_gauge() {
    assert_eq!(ClearType::from_id(0), ClearType::NoPlay);
    assert_eq!(ClearType::from_id(1), ClearType::Failed);
    assert_eq!(ClearType::from_id(5), ClearType::Normal);
    assert_eq!(ClearType::from_id(8), ClearType::FullCombo);
    assert_eq!(ClearType::from_id(10), ClearType::Max);
    assert_eq!(ClearType::from_id(99), ClearType::NoPlay, "unknown id gives NoPlay");
    assert_eq!(ClearType::Normal.gauge_ids(), &[2, 6]);
    assert_eq!(ClearType::ExHard.gauge_ids(), &[4, 8]);
    assert!(ClearType::NoPlay.gauge_ids().is_empty());
}

#[test]
fn rank_steps_and_labels() {
    assert_eq!(Rank::from_step(24), Rank::AAA);
    assert_eq!(Rank::from_step(23), Rank::AA);
    assert_eq!(Rank::from_step(21), Rank::AA);
    assert_eq!(Rank::from_step(18), Rank::A);
    assert_eq!(Rank::from_step(15), Rank::B);
    assert_eq!(Rank::from_step(12), Rank::C);
    assert_eq!(Rank::from_step(9), Rank::D);
    assert_eq!(Rank::from_step(6), Rank::E);
    assert_eq!(Rank::from_step(5), Rank::F);
    assert_eq!(Rank::from_step(-3), Rank::F);
    assert_eq!(Rank::from_step(100), Rank::AAA);
    assert_eq!(Rank::AAA.label(), "AAA");
    assert_eq!(Rank::F.label(), "F");
    // exact boundary: 24/27 of the maximum
    assert_eq!(Rank::from_ex_score(24, 27), Rank::AAA);
    assert_eq!(Rank::from_ex_score(23, 27), Rank::AA);
}

#[test]
fn grade_by_ninths_matches_rank() {
    for max in [0u32, 1, 9, 27, 100, 1000] {
        for ex in 0..=max {
            assert_eq!(grade(ex, max), Rank::from_ex_score(ex, max).label(), "ex={ex} max={max}");
        }
    }
    assert_eq!(grade(800, 900), "AAA");
    assert_eq!(grade(799, 900), "AA");
    assert_eq!(grade(0, 0), "F");
}

#[test]
fn max_ex_is_twice_the_notes() {
    assert_eq!(max_ex_score(0), 0);
    assert_eq!(max_ex_score(500), 1000);
    assert_eq!(max_ex_score(3_000_000_000), u32::MAX);
}

/// The step of a rate (0-100) on the 27-step scale, as the game computes it.
fn step_of_rate(rate: f64) -> i64 {
    (rate / 100.0 * 27.0).floor() as i64
}

#[test]
fn rank_thresholds() {
    assert_eq!(Rank::from_step(step_of_rate(89.0)), Rank::AAA);
    assert_eq!(Rank::from_step(step_of_rate(88.9)), Rank::AAA);
    assert_eq!(Rank::from_step(step_of_rate(80.0)), Rank::AA);
    assert_eq!(Rank::from_step(step_of_rate(70.0)), Rank::A);
    assert_eq!(Rank::from_step(step_of_rate(60.0)), Rank::B);
    assert_eq!(Rank::from_step(step_of_rate(50.0)), Rank::C);
    assert_eq!(Rank::from_step(step_of_rate(40.0)), Rank::D);
    assert_eq!(Rank::from_step(step_of_rate(30.0)), Rank::E);
    assert_eq!(Rank::from_step(step_of_rate(10.0)), Rank::F);
    assert_eq!(Rank::from_step(step_of_rate(24.0 / 27.0 * 100.0)), Rank::AAA);
    assert_eq!(Rank::from_step(step_of_rate(21.0 / 27.0 * 100.0)), Rank::AA);
    assert_eq!(Rank::from_step(step_of_rate(0.0)), Rank::F);
    assert_eq!(Rank::from_step(step_of_rate(100.0)), Rank::AAA);
}
