use rxbms::chart::{
    bgm_counts, chart_layout, collect_lanes, extract_notes, find_note, lane_index, play_mode, priority_wavs, sort_by_event, ChartEventView, ChartNote,
    EventBody, LaneKey, NoteType,
};
use rxbms::keybind::{BindTarget, PlayMode};

fn note_ev(id: usize, time_us: i64, key: LaneKey, kind: NoteType, wav: Option<usize>) -> ChartEventView {
    ChartEventView {
        id,
        time_us,
        position_um: time_us,
        body: EventBody::Note { player1: true, key, kind, wav_id: wav, length_um: Some(250_000) },
    }
}

fn bgm_ev(id: usize, time_us: i64, wav: Option<usize>) -> ChartEventView {
    ChartEventView { id, time_us, position_um: time_us, body: EventBody::Bgm { wav_id: wav } }
}

#[test]
fn lanes_are_deduplicated_and_ordered() {
    let events = vec![
        note_ev(0, 0, LaneKey::Key(3), NoteType::Visible, None),
        note_ev(1, 10, LaneKey::Scratch(1), NoteType::Visible, None),
        note_ev(2, 20, LaneKey::Key(1), NoteType::Invisible, None),
        note_ev(3, 30, LaneKey::Key(3), NoteType::Long, None),
        note_ev(4, 40, LaneKey::FootPedal, NoteType::Visible, None),
        bgm_ev(5, 50, Some(1)),
    ];
    let lanes = collect_lanes(&events);
    assert_eq!(lanes, vec![LaneKey::Scratch(1), LaneKey::Key(1), LaneKey::Key(3)]);
    assert_eq!(lane_index(&lanes, LaneKey::Key(3)), Some(2));
    assert_eq!(lane_index(&lanes, LaneKey::Key(7)), None);
    assert_eq!(play_mode(&lanes), PlayMode::FiveKey);
}

#[test]
fn mini_chart_notes() {
    // two 1P notes on keys 1 and 2 and one background sound
    let events = vec![
        note_ev(2, 2_000_000, LaneKey::Key(2), NoteType::Visible, Some(2)),
        note_ev(1, 2_000_000, LaneKey::Key(1), NoteType::Visible, Some(2)),
        bgm_ev(0, 2_000_000, Some(1)),
    ];
    let lanes = collect_lanes(&events);
    assert_eq!(lanes, vec![LaneKey::Key(1), LaneKey::Key(2)]);
    let r = extract_notes(&events, &lanes);
    assert_eq!(r.notes.len(), 2);
    assert_eq!(r.bgm_events, 1);
    assert_eq!(r.keysound_events, 2);
    assert_eq!(r.last_time_us, 2_000_000);
    assert_eq!(r.notes[0].lane, 1);
    assert_eq!(r.notes[1].lane, 0);
    let sorted = sort_by_event(r.notes);
    assert_eq!(sorted[0].event_id, 1);
    assert_eq!(sorted[1].event_id, 2);
    assert_eq!(find_note(&sorted, 2), Some(1));
    assert_eq!(find_note(&sorted, 0), None);
}

#[test]
fn hidden_and_pedal_notes_are_not_played() {
    let events = vec![
        note_ev(0, 0, LaneKey::Key(1), NoteType::Invisible, Some(4)),
        note_ev(1, 5, LaneKey::FootPedal, NoteType::Visible, None),
        note_ev(2, 9, LaneKey::Key(1), NoteType::Long, None),
        note_ev(3, 7, LaneKey::Key(1), NoteType::Landmine, None),
    ];
    let lanes = collect_lanes(&events);
    let r = extract_notes(&events, &lanes);
    assert_eq!(r.keysound_events, 4);
    assert_eq!(r.notes.len(), 2);
    assert_eq!(r.notes[0].kind, NoteType::Long);
    assert_eq!(r.notes[0].length_um, Some(250_000));
    assert_eq!(r.notes[1].kind, NoteType::Landmine);
    assert_eq!(r.notes[1].length_um, None, "only long notes keep a length");
    assert_eq!(r.last_time_us, 9);
}

#[test]
fn seven_key_mode_from_lanes() {
    assert_eq!(play_mode(&vec![LaneKey::Scratch(1), LaneKey::Key(6)]), PlayMode::SevenKey);
    assert_eq!(play_mode(&vec![LaneKey::Key(5)]), PlayMode::FiveKey);
    assert_eq!(play_mode(&vec![]), PlayMode::FiveKey);
    assert_eq!(LaneKey::from(BindTarget::Scratch), LaneKey::Scratch(1));
    assert_eq!(LaneKey::from(BindTarget::Key(4)), LaneKey::Key(4));
}

#[test]
fn sort_is_stable_permutation() {
    let n = |id: usize, t: i64| ChartNote {
        event_id: id,
        key: LaneKey::Key(1),
        kind: NoteType::Visible,
        wav_id: None,
        time_us: t,
        position_um: 0,
        length_um: None,
        lane: 0,
    };
    let v = vec![n(5, 1), n(1, 2), n(3, 3), n(1, 4), n(0, 5)];
    let s = sort_by_event(v);
    let ids: Vec<usize> = s.iter().map(|x| x.event_id).collect();
    assert_eq!(ids, vec![0, 1, 1, 3, 5]);
    assert_eq!(s[1].time_us, 2);
    assert_eq!(s[2].time_us, 4);
}

#[test]
fn early_sounds_once_each() {
    let events = vec![
        bgm_ev(0, 0, Some(3)),
        note_ev(1, 1_000_000, LaneKey::Key(1), NoteType::Visible, Some(4)),
        bgm_ev(2, 2_000_000, Some(3)),
        note_ev(3, 31_000_000, LaneKey::Key(1), NoteType::Visible, Some(9)),
        bgm_ev(4, 3_000_000, None),
    ];
    let w = priority_wavs(&events, 30_000_000);
    assert_eq!(w, vec![3, 4]);
}

#[test]
fn turntables_keep_their_first_appearance_order() {
    let events = vec![
        note_ev(0, 0, LaneKey::Key(2), NoteType::Visible, None),
        note_ev(1, 10, LaneKey::Scratch(2), NoteType::Visible, None),
        note_ev(2, 20, LaneKey::Scratch(1), NoteType::Visible, None),
        note_ev(3, 30, LaneKey::Scratch(2), NoteType::Visible, None),
    ];
    assert_eq!(collect_lanes(&events), vec![LaneKey::Scratch(2), LaneKey::Scratch(1), LaneKey::Key(2)]);
}

#[test]
fn background_sounds_are_counted_per_sound() {
    let events = vec![
        bgm_ev(0, 0, Some(3)),
        note_ev(1, 10, LaneKey::Key(1), NoteType::Visible, Some(3)),
        bgm_ev(2, 20, Some(7)),
        bgm_ev(3, 30, Some(3)),
        bgm_ev(4, 40, None),
        bgm_ev(5, 50, Some(3)),
    ];
    // key sounds are not counted; a background event without a sound neither
    assert_eq!(bgm_counts(&events), vec![(3, 3), (7, 1)]);
    assert_eq!(bgm_counts(&vec![]), vec![]);
}

#[test]
fn chart_layout_places_every_note() {
    let events = vec![
        note_ev(5, 30, LaneKey::Key(2), NoteType::Long, Some(1)),
        note_ev(2, 10, LaneKey::Scratch(1), NoteType::Visible, None),
        note_ev(4, 20, LaneKey::Key(1), NoteType::Invisible, None),
        bgm_ev(3, 40, Some(2)),
        note_ev(1, 50, LaneKey::Key(2), NoteType::Visible, None),
    ];
    let l = chart_layout(&events);
    assert_eq!(l.lanes, vec![LaneKey::Scratch(1), LaneKey::Key(1), LaneKey::Key(2)]);
    let ids: Vec<usize> = l.notes.iter().map(|n| n.event_id).collect();
    assert_eq!(ids, vec![1, 2, 5]);
    for n in &l.notes {
        assert_eq!(l.lanes[n.lane], n.key);
    }
    assert_eq!(l.notes[2].length_um, Some(250_000));
    assert_eq!(l.notes[0].length_um, None);
    assert_eq!(l.bgm_events, 1);
    assert_eq!(l.keysound_events, 4);
    assert_eq!(l.last_time_us, 50);
}
