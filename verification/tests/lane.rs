use rxbms::chart::LaneKey;
use rxbms::judge::{JudgeWindows, Judgement};
use rxbms::lane::{release_ln, start_ln, update_ln, LaneState, LaneStates, LastHit, LnKind, LnMode, LnState};

fn windows() -> JudgeWindows {
    JudgeWindows::default()
}

#[test]
fn release_within_window_defers() {
    let mut st = LnState::default();
    start_ln(&mut st, 0, LnKind::LongNote, Judgement::Pg, 0);
    // tail at 1 s, released 50 ms before it (inside GOOD)
    let r = release_ln(&mut st, 950_000, 1_000_000, &windows());
    assert!(r.is_none(), "a release inside the window defers the tail");
    assert!(st.release_time_us.is_some());
    assert_eq!(st.lnend_judge, Some(Judgement::Gd));
}

#[test]
fn release_early_misses() {
    let mut st = LnState::default();
    start_ln(&mut st, 0, LnKind::LongNote, Judgement::Pg, 0);
    // tail at 0.5 s, released at 0: outside GOOD
    let r = release_ln(&mut st, 0, 500_000, &windows());
    assert_eq!(r, Some(Judgement::Pr), "an early release judges the tail at once");
}

#[test]
fn tail_reached_held_completes() {
    let mut st = LnState::default();
    start_ln(&mut st, 0, LnKind::ChargeNote, Judgement::Pg, 0);
    assert_eq!(update_ln(&st, 0, 10_000_000, 11_000_000), Some(None));
}

#[test]
fn tail_reached_after_release_judges() {
    let mut st = LnState::default();
    start_ln(&mut st, 0, LnKind::ChargeNote, Judgement::Pg, 0);
    assert!(release_ln(&mut st, 4_950_000, 5_000_000, &windows()).is_none());
    assert_eq!(update_ln(&st, 0, 10_000_000, 11_000_000), Some(Some(Judgement::Gd)));
}

#[test]
fn not_reached_yet() {
    let st = LnState::default();
    assert_eq!(update_ln(&st, 0, 10_000_000, 5_000_000), None);
}

#[test]
fn lntype_kinds() {
    assert_eq!(LnKind::from(LnMode::Ln), LnKind::LongNote);
    assert_eq!(LnKind::from(LnMode::Cn), LnKind::ChargeNote);
    assert_eq!(LnKind::from(LnMode::Hcn), LnKind::HellChargeNote);
}

#[test]
fn start_ln_resets_release() {
    let mut st = LnState::default();
    st.last_heal_us = 77;
    start_ln(&mut st, 3, LnKind::HellChargeNote, Judgement::Gr, 12);
    assert_eq!(st.processing, Some(3));
    assert_eq!(st.kind, LnKind::HellChargeNote);
    assert_eq!(st.lnstart_judge, Some(Judgement::Gr));
    assert_eq!(st.lnstart_duration_us, 12);
    assert_eq!(st.release_time_us, None);
    assert_eq!(st.lnend_judge, None);
    assert_eq!(st.last_heal_us, 77);
    assert_eq!(LnKind::HellChargeNote.label(), "HCN");
}

#[test]
fn release_exactly_at_window_edge() {
    let w = windows(); // GOOD 100 ms
    let mut st = LnState::default();
    assert!(release_ln(&mut st, 900_000, 1_000_000, &w).is_none());
    let mut st2 = LnState::default();
    assert_eq!(release_ln(&mut st2, 899_999, 1_000_000, &w), Some(Judgement::Pr));
    let mut st3 = LnState::default();
    // releasing at or after the tail is not a deferred release
    assert_eq!(release_ln(&mut st3, 1_000_000, 1_000_000, &w), Some(Judgement::Pr));
}

#[test]
fn lane_states_get_after_set() {
    let mut lanes = LaneStates::new();
    assert_eq!(lanes.get(LaneKey::Key(1)), LaneState::default());
    let mut s = LaneState::default();
    s.last_hit = Some(LastHit { judgement: Judgement::Gr, at_us: 42 });
    s.ln.processing = Some(7);
    lanes.set(LaneKey::Key(1), s);
    lanes.set(LaneKey::Scratch(1), LaneState::default());
    assert_eq!(lanes.get(LaneKey::Key(1)), s);
    assert_eq!(lanes.len(), 2);
    assert!(lanes.holds_note(7));
    assert!(!lanes.holds_note(8));
    s.ln.processing = None;
    lanes.set(LaneKey::Key(1), s);
    assert_eq!(lanes.len(), 2);
    assert!(!lanes.holds_note(7));
}
