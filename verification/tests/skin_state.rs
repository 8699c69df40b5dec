use rxbms::chart::{ChartNote, LaneKey, NoteType};
use rxbms::judge::Judgement;
use rxbms::lane::{LaneState, LaneStates, LastHit};
use rxbms::skin::state::{
    apply_base_timers, apply_hit_feedback, apply_hold_timers, apply_key, apply_visible_notes, number, text, timer, JudgePop,
    PlayState, TIMER_BOMB_1P_SCRATCH, TIMER_FAILED, TIMER_FULLCOMBO_1P, TIMER_GAUGE_MAX_1P, TIMER_HOLD_1P_SCRATCH,
    TIMER_JUDGE_1P, TIMER_KEYON_1P_SCRATCH, TIMER_OFF, TIMER_PLAY, TIMER_READY,
};

fn sample() -> PlayState {
    let mut s = PlayState::default();
    s.now_time_us = 5_000_000;
    s.now_um = 42_000_000;
    s.visible_um = 100_000_000;
    s.hispeed_x100 = 150;
    s.duration_us = 125_000_000;
    s.total_us = 300_000_000;
    s.title = String::from("Test Title");
    s.artist = String::from("Artist");
    s.genre = String::from("Genre");
    s.play_level = 10;
    s.total_notes = 500;
    s.bpm_now_milli = 180_000;
    s.bpm_min_milli = 100_000;
    s.bpm_max_milli = 200_000;
    s.ex_score = 700;
    s.combo = 30;
    s.max_combo = 60;
    s.pg = 300;
    s.gr = 50;
    s.gd = 5;
    s.bd = 2;
    s.pr = 1;
    s.fast = 3;
    s.slow = 4;
    s.combo_break = 5;
    s.gauge_centi = 7500;
    s.started = true;
    s.timers[TIMER_PLAY] = 5000;
    s.timers[TIMER_READY] = 0;
    s.timers[TIMER_JUDGE_1P] = 250;
    s
}

#[test]
fn number_mapping() {
    let s = sample();
    assert_eq!(number(&s, 71), 700);
    assert_eq!(number(&s, 74), 500);
    assert_eq!(number(&s, 75), 60);
    assert_eq!(number(&s, 76), 1);
    assert_eq!(number(&s, 80), 300);
    assert_eq!(number(&s, 81), 50);
    assert_eq!(number(&s, 82), 5);
    assert_eq!(number(&s, 83), 2);
    assert_eq!(number(&s, 84), 1);
    // BPMs are whole numbers
    assert_eq!(number(&s, 90), 200);
    assert_eq!(number(&s, 91), 100);
    assert_eq!(number(&s, 160), 180);
    assert_eq!(number(&s, 96), 10);
    assert_eq!(number(&s, 104), 30, "current combo");
    assert_eq!(number(&s, 106), 500);
    assert_eq!(number(&s, 107), 75);
    assert_eq!(number(&s, 110), 300);
    assert_eq!(number(&s, 111), 50);
    assert_eq!(number(&s, 114), 1);
    // hi-speed split into whole and fraction (1.5 → "1" + "50")
    assert_eq!(number(&s, 310), 1);
    assert_eq!(number(&s, 311), 50);
    assert_eq!(number(&s, 161), 2);
    assert_eq!(number(&s, 162), 5);
    assert_eq!(number(&s, 163), 2, "time left in minutes (300 - 125 + 1 = 176 s → 2)");
    assert_eq!(number(&s, 164), 56);
    assert_eq!(number(&s, 174), 60);
    assert_eq!(number(&s, 177), 1);
    assert_eq!(number(&s, 420), 1);
    assert_eq!(number(&s, 425), 5);
    assert_eq!(number(&s, 426), 1);
    assert_eq!(number(&s, 427), 3, "BAD + POOR = 2 + 1");
}

#[test]
fn rate_and_gauge() {
    let s = sample();
    // 700 / (500 × 2) = 0.7 → 7000
    assert_eq!(s.rate_x100(), 7000);
    assert_eq!(number(&s, 102), 70);
    assert_eq!(number(&s, 103), 0);
    assert_eq!(number(&s, 107), 75);
}

#[test]
fn timer_mapping() {
    let s = sample();
    assert_eq!(timer(&s, TIMER_PLAY as i64), 5000);
    assert_eq!(timer(&s, TIMER_JUDGE_1P as i64), 250);
    assert_eq!(timer(&s, 999), TIMER_OFF);
    assert_eq!(timer(&s, TIMER_FULLCOMBO_1P as i64), TIMER_OFF);
}

#[test]
fn text_mapping() {
    let s = sample();
    assert_eq!(text(&s, 10), "Test Title");
    assert_eq!(text(&s, 13), "Genre");
    assert_eq!(text(&s, 14), "Artist");
    assert_eq!(text(&s, 99), "");
}

#[test]
fn fractions_and_defaults() {
    let mut s = PlayState::default();
    assert_eq!(s.rate_x100(), 0, "no notes");
    assert_eq!(number(&s, 10), 100);
    assert_eq!(number(&s, 12345), 0);
    s.gauge_centi = 7550;
    assert_eq!(number(&s, 107), 75);
    assert_eq!(number(&s, 407), 50);
    s.total_notes = 3;
    s.ex_score = 1;
    // 1 / 6 × 10000 = 1666.6 → 1666
    assert_eq!(s.rate_x100(), 1666);
    assert_eq!(number(&s, 155), 16);
    assert_eq!(number(&s, 156), 66);
    s.duration_us = 400_000_000;
    s.total_us = 300_000_000;
    assert_eq!(number(&s, 163), 0, "no time left");
    assert_eq!(number(&s, 164), 0);
}

#[test]
fn base_timers_follow_flags() {
    let mut s = PlayState::default();
    s.scene_time_us = 4_321_987;
    s.failed = true;
    apply_base_timers(&mut s, true);
    assert_eq!(s.timers[TIMER_PLAY], TIMER_OFF);
    assert_eq!(s.timers[TIMER_READY], 0);
    assert_eq!(s.timers[TIMER_FAILED], 4321);
    assert_eq!(s.timers[TIMER_FULLCOMBO_1P], TIMER_OFF);
    assert_eq!(s.timers[TIMER_GAUGE_MAX_1P], 4321);
    s.started = true;
    s.failed = false;
    s.combo = 3;
    apply_base_timers(&mut s, false);
    assert_eq!(s.timers[TIMER_PLAY], 0);
    assert_eq!(s.timers[TIMER_READY], TIMER_OFF);
    assert_eq!(s.timers[TIMER_FAILED], TIMER_OFF);
    assert_eq!(s.timers[TIMER_FULLCOMBO_1P], 0);
    assert_eq!(s.timers[TIMER_GAUGE_MAX_1P], TIMER_OFF);
}

#[test]
fn key_on_timer_tracks_press() {
    let mut s = PlayState::default();
    s.scene_time_us = 2_000_500;
    apply_key(&mut s, 3, true, true);
    assert!(s.keys[3]);
    assert_eq!(s.key_press_at_us[3], 2_000_500);
    assert_eq!(s.timers[TIMER_KEYON_1P_SCRATCH + 3], 2000);
    s.scene_time_us = 3_000_000;
    apply_key(&mut s, 3, true, false);
    assert_eq!(s.timers[TIMER_KEYON_1P_SCRATCH + 3], 2000, "held: still the press time");
    apply_key(&mut s, 3, false, false);
    assert!(!s.keys[3]);
    assert_eq!(s.timers[TIMER_KEYON_1P_SCRATCH + 3], TIMER_OFF);
    let before = s.timers;
    apply_key(&mut s, 9, true, true);
    assert_eq!(s.timers, before, "lanes past the table are ignored");
}

fn hit(j: Judgement, at_us: i64) -> LaneState {
    let mut l = LaneState::default();
    l.last_hit = Some(LastHit { judgement: j, at_us });
    l
}

#[test]
fn hit_effects_emit() {
    let mut lanes = LaneStates::new();
    lanes.set(LaneKey::Key(1), hit(Judgement::Pr, 4_900_000));
    lanes.set(LaneKey::Key(2), hit(Judgement::Pg, 4_950_000));
    lanes.set(LaneKey::Scratch(1), hit(Judgement::Gr, 3_000_000));
    let mut s = PlayState::default();
    s.now_time_us = 5_000_000;
    s.timers[TIMER_BOMB_1P_SCRATCH + 5] = 77;
    apply_hit_feedback(&mut s, &lanes);
    // the latest judgement pops up alone
    assert_eq!(s.judge_pops, vec![JudgePop { lane: 2, judgement: 0, at_us: 4_950_000 }]);
    assert_eq!(s.timers[TIMER_JUDGE_1P], 4950);
    // the PG lane shows its hit effect; a POOR shows none; stale ones are off
    assert_eq!(s.timers[TIMER_BOMB_1P_SCRATCH + 2], 4950);
    assert_eq!(s.timers[TIMER_BOMB_1P_SCRATCH + 1], TIMER_OFF);
    assert_eq!(s.timers[TIMER_BOMB_1P_SCRATCH], TIMER_OFF, "2 s ago: no longer shown");
    assert_eq!(s.timers[TIMER_BOMB_1P_SCRATCH + 5], TIMER_OFF);
    // without auto play no key-on timer is simulated
    assert_eq!(s.timers[TIMER_KEYON_1P_SCRATCH + 2], TIMER_OFF);
    s.auto = true;
    apply_hit_feedback(&mut s, &lanes);
    assert_eq!(s.timers[TIMER_KEYON_1P_SCRATCH + 2], 4950);
    assert_eq!(s.timers[TIMER_KEYON_1P_SCRATCH + 1], 4900, "100 ms ago: still inside the 150 ms key-on span");
    assert_eq!(s.timers[TIMER_KEYON_1P_SCRATCH], TIMER_OFF, "2 s ago: no key-on");
    // nothing recent: no pop-up
    s.now_time_us = 9_000_000;
    apply_hit_feedback(&mut s, &lanes);
    assert!(s.judge_pops.is_empty());
    assert_eq!(s.timers[TIMER_JUDGE_1P], TIMER_OFF);
}

#[test]
fn hold_timers_per_lane() {
    let mut lanes = LaneStates::new();
    let mut held = LaneState::default();
    held.ln.processing = Some(4);
    lanes.set(LaneKey::Key(3), held);
    lanes.set(LaneKey::Scratch(1), LaneState::default());
    let mut s = PlayState::default();
    apply_hold_timers(&mut s, &lanes);
    assert_eq!(s.timers[TIMER_HOLD_1P_SCRATCH + 3], 0);
    assert_eq!(s.timers[TIMER_HOLD_1P_SCRATCH], TIMER_OFF);
    assert_eq!(s.timers[TIMER_HOLD_1P_SCRATCH + 7], TIMER_OFF);
}

#[test]
fn visible_notes_window() {
    let n = |pos: i64, kind: NoteType| ChartNote {
        event_id: 0,
        key: LaneKey::Key(1),
        kind,
        wav_id: None,
        time_us: 0,
        position_um: pos,
        length_um: None,
        lane: 1,
    };
    let notes = vec![n(0, NoteType::Visible), n(2_900_000, NoteType::Long), n(3_100_000, NoteType::Landmine), n(1_000_000, NoteType::Visible)];
    let consumed = vec![true, false, false, false];
    let mut lanes = LaneStates::new();
    let mut held = LaneState::default();
    held.ln.processing = Some(1);
    lanes.set(LaneKey::Key(1), held);
    let mut s = PlayState::default();
    s.now_um = 0;
    s.hispeed_x100 = 100; // window 1 measure, plus 2 measures of margin
    apply_visible_notes(&mut s, &notes, &consumed, &lanes, 3);
    assert_eq!(s.notes.len(), 2, "the limit stops before the fourth note; the third is too high");
    assert_eq!(s.notes[0].idx, 0);
    assert!(s.notes[0].consumed);
    assert_eq!(s.notes[1].idx, 1);
    assert_eq!(s.notes[1].kind, 1);
    assert!(s.notes[1].ln_active);
}
