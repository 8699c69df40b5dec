use rxbms::chart::{ChartNote, EventBody, LaneKey, NoteType};
use rxbms::judge::{JudgeDir, JudgeWindows, Judgement};
use rxbms::lane::{LaneState, LaneStates, LnKind, LnState};
use rxbms::play::{
    fired_action, heal_due, is_missed, missed_notes, press_target, tick_end, tick_start, FiredAction, Phase, PressOutcome,
    SessionFlags, TickEnd, TickInput, TickStart,
};

fn n(key: u8, time_us: i64) -> ChartNote {
    ChartNote {
        event_id: 0,
        key: LaneKey::Key(key),
        kind: NoteType::Visible,
        wav_id: None,
        time_us,
        position_um: 0,
        length_um: None,
        lane: 0,
    }
}

#[test]
fn press_hits_closest_note_in_window() {
    let w = JudgeWindows::default();
    let notes = vec![n(1, 1_000_000), n(1, 1_150_000), n(2, 1_010_000)];
    let consumed = vec![false; 3];
    // press at 1.1 s: note 1 is 50 ms away, note 0 is 100 ms away
    match press_target(&notes, &consumed, LaneKey::Key(1), 1_100_000, &w) {
        PressOutcome::Hit { note, judgement, dir } => {
            assert_eq!(note, 1);
            assert_eq!(judgement, Judgement::Gd);
            assert_eq!(dir, JudgeDir::Early);
        },
        other => panic!("expected a hit, got {other:?}"),
    }
    // the same press with note 1 played hits note 0, late
    let consumed = vec![false, true, false];
    assert_eq!(
        press_target(&notes, &consumed, LaneKey::Key(1), 1_100_000, &w),
        PressOutcome::Hit { note: 0, judgement: Judgement::Gd, dir: JudgeDir::Late }
    );
}

#[test]
fn press_ties_go_to_the_earlier_note() {
    let w = JudgeWindows::default();
    let notes = vec![n(1, 900_000), n(1, 1_100_000)];
    let consumed = vec![false, false];
    assert_eq!(
        press_target(&notes, &consumed, LaneKey::Key(1), 1_000_000, &w),
        PressOutcome::Hit { note: 0, judgement: Judgement::Gd, dir: JudgeDir::Late }
    );
    assert_eq!(
        press_target(&notes, &consumed, LaneKey::Key(1), 1_100_000, &w),
        PressOutcome::Hit { note: 1, judgement: Judgement::Pg, dir: JudgeDir::Neutral }
    );
}

#[test]
fn early_press_is_air_poor_or_nothing() {
    let w = JudgeWindows::default();
    let notes = vec![n(1, 2_000_000)];
    let consumed = vec![false];
    assert_eq!(press_target(&notes, &consumed, LaneKey::Key(1), 1_500_000, &w), PressOutcome::AirPoor);
    assert_eq!(press_target(&notes, &consumed, LaneKey::Key(1), 500_000, &w), PressOutcome::Nothing);
    assert_eq!(press_target(&notes, &consumed, LaneKey::Key(2), 1_500_000, &w), PressOutcome::Nothing);
    assert_eq!(press_target(&notes, &[true].to_vec(), LaneKey::Key(1), 2_000_000, &w), PressOutcome::Nothing);
}

#[test]
fn missed_after_bad_window_and_grace() {
    let w = JudgeWindows::default(); // BAD 200 ms, grace 50 ms
    assert!(!is_missed(1_000_000, 1_250_000, &w));
    assert!(is_missed(1_000_000, 1_250_001, &w));
    let notes = vec![n(1, 0), n(1, 100_000), n(2, 0), n(1, 5_000_000)];
    let consumed = vec![false, true, false, false];
    let mut lanes = LaneStates::new();
    let mut held = LaneState::default();
    held.ln.processing = Some(2);
    lanes.set(LaneKey::Key(2), held);
    assert_eq!(missed_notes(&notes, &consumed, &lanes, 1_000_000, &w), vec![0]);
}

#[test]
fn hell_charge_heals_every_interval() {
    let mut ln = LnState::default();
    ln.kind = LnKind::HellChargeNote;
    ln.last_heal_us = 1_000_000;
    assert!(!heal_due(&ln, 1_199_999));
    assert!(heal_due(&ln, 1_200_000));
    ln.kind = LnKind::ChargeNote;
    assert!(!heal_due(&ln, 9_000_000));
}

#[test]
fn fired_events_by_kind() {
    let hidden = EventBody::Note { player1: true, key: LaneKey::Key(1), kind: NoteType::Invisible, wav_id: Some(3), length_um: None };
    let normal = EventBody::Note { player1: true, key: LaneKey::Key(1), kind: NoteType::Visible, wav_id: Some(4), length_um: None };
    assert_eq!(fired_action(&hidden, false), FiredAction::Sound(Some(3)));
    assert_eq!(fired_action(&normal, false), FiredAction::Ignore);
    assert_eq!(fired_action(&normal, true), FiredAction::AutoHit(Some(4)));
    assert_eq!(fired_action(&EventBody::Bgm { wav_id: None }, true), FiredAction::Sound(None));
    assert_eq!(fired_action(&EventBody::Other, true), FiredAction::Ignore);
}

fn input() -> TickInput {
    TickInput {
        load_failed: false,
        audio_playing: true,
        since_exit_us: 0,
        escape: false,
        toggle_auto: false,
        audio_ready: false,
    }
}

#[test]
fn session_goes_from_loading_to_exit() {
    let mut s = SessionFlags { phase: Phase::Loading, auto: false };
    assert_eq!(tick_start(&mut s, &input()), TickStart::Hold);
    assert_eq!(s.phase, Phase::Loading);
    let ready = TickInput { audio_ready: true, toggle_auto: true, ..input() };
    assert_eq!(tick_start(&mut s, &ready), TickStart::Run { begin_song: true });
    assert_eq!(s, SessionFlags { phase: Phase::Playing, auto: true });
    assert_eq!(tick_start(&mut s, &input()), TickStart::Run { begin_song: false });
    assert_eq!(tick_end(&mut s, false, 3, 10, 1_000_000, 60_000_000), TickEnd::Continue);
    assert_eq!(tick_end(&mut s, false, 10, 10, 1_000_000, 60_000_000), TickEnd::Finish);
    assert_eq!(s.phase, Phase::Exiting);
    assert_eq!(tick_start(&mut s, &input()), TickStart::Hold);
    let quiet = TickInput { audio_playing: false, ..input() };
    assert_eq!(tick_start(&mut s, &quiet), TickStart::Leave { stop_audio: true });
    let late = TickInput { since_exit_us: 5_000_001, ..input() };
    assert_eq!(tick_start(&mut s, &late), TickStart::Leave { stop_audio: true });
}

#[test]
fn escape_and_failures_leave() {
    let mut s = SessionFlags { phase: Phase::Loading, auto: false };
    let esc = TickInput { escape: true, ..input() };
    assert_eq!(tick_start(&mut s, &esc), TickStart::Leave { stop_audio: false });
    let mut p = SessionFlags { phase: Phase::Playing, auto: false };
    assert_eq!(tick_start(&mut p, &esc), TickStart::Leave { stop_audio: true });
    let failed = TickInput { load_failed: true, ..input() };
    assert_eq!(tick_start(&mut p, &failed), TickStart::Leave { stop_audio: false });
    assert_eq!(tick_end(&mut p, true, 0, 10, 0, 10), TickEnd::Fail);
    assert_eq!(p.phase, Phase::Playing);
    // past the last event by more than 3 s
    assert_eq!(tick_end(&mut p, false, 0, 10, 13_000_001, 10_000_000), TickEnd::Finish);
}
