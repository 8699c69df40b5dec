use rxbms::skin::config::SkinConfigValues;
use rxbms::skin::model::{Destination, ImageDef, KeyFrame};
use rxbms::skin::number::{leading_blank_slots, number_glyphs};
use rxbms::skin::scroll::scroll_distance;
use rxbms::skin::render::{note_image, skin_lane, NoteImage};
use rxbms::skin::render::{draw_frame, gauge_nodes, frame_at, frame_index, frame_uv, judge_pop_id, UvRect};
use rxbms::skin::state::{TIMER_OFF, TIMER_READY};

fn kf(time: i32, x: i32, y: i32, a: i32) -> KeyFrame {
    KeyFrame { time, x, y, w: 100, h: 50, a, r: 255, g: 255, b: 255 }
}

fn dest(id: &str, timer: Option<i64>, loop_: i32, op: Vec<i64>, frames: Vec<KeyFrame>) -> Destination {
    Destination {
        id: String::from(id),
        timer,
        loop_,
        op,
        offsets: Vec::new(),
        blend: 0,
        filter: 0,
        frames,
    }
}

/// The artist fade-in of the test skin: frames 0/250/3250/3500/7000 ms with
/// alpha 0 → 255 → 255 → 0 → 0, loop point 0.
fn artist() -> Destination {
    dest(
        "artist",
        Some(1008),
        0,
        vec![1008],
        vec![kf(0, 100, 900, 0), kf(250, 200, 900, 255), kf(3250, 200, 900, 255), kf(3500, 200, 900, 0), kf(7000, 200, 900, 0)],
    )
}

#[test]
fn frame_interpolation() {
    let artist = artist();
    // timer off: first frame (alpha 0)
    let f0 = frame_at(&artist, TIMER_OFF).unwrap();
    assert_eq!(f0.a, 0);
    // t = 250 ms: exactly the second frame
    let f1 = frame_at(&artist, 250_000).unwrap();
    assert_eq!(f1.a, 255);
    // t = 125 ms: half way, alpha about 127
    let fmid = frame_at(&artist, 125_000).unwrap();
    assert!((fmid.a - 127).abs() <= 1, "a={}", fmid.a);
    // t = 7000 ms: last frame
    let fend = frame_at(&artist, 7_000_000).unwrap();
    assert_eq!(fend.a, 0);
    // position half way between the first two frames
    assert!((fmid.x as f64 - (f0.x as f64 + f1.x as f64) / 2.0).abs() <= 1.0);
    // loop = -1 (judgement pop-up): gone once played
    let judge = dest("judge-pg", Some(46), -1, vec![], vec![kf(0, 0, 0, 255), kf(500, 0, 0, 255)]);
    assert!(frame_at(&judge, 499_000).is_some(), "shown at 499 ms");
    assert!(frame_at(&judge, 501_000).is_none(), "gone at 501 ms");
}

#[test]
fn frame_at_entrance_animation_fixed() {
    // lane background: loop 900 with the last frame at 900 → stays on the last frame
    let lane_bg = dest("lane-bg-1p", None, 900, vec![], vec![kf(0, 0, 1100, 255), kf(900, 0, 200, 255)]);
    assert_eq!(lane_bg.loop_, 900);
    assert_eq!(lane_bg.frames.last().unwrap().time, 900);
    let f_mid = frame_at(&lane_bg, 500_000).unwrap();
    assert!(f_mid.y > 200, "still sliding in half way");
    let f_end = frame_at(&lane_bg, 5_000_000).expect("stays on the last frame");
    assert_eq!(f_end.y, 200);
    let f_end2 = frame_at(&lane_bg, 10_000_000).unwrap();
    assert_eq!(f_end2.y, 200, "still there much later");
    // artist fade-in (loop 0, last frame 7000): loops
    let artist = artist();
    assert_ne!(artist.frames.last().unwrap().time, artist.loop_);
    let f_loop = frame_at(&artist, 7_500_000).unwrap();
    assert_eq!(f_loop.a, 255, "7500 ms wraps to 500 ms, inside 250-3250");
}

#[test]
fn frame_rounding_and_single_frames() {
    let d = dest("x", None, 0, vec![], vec![kf(0, 0, 0, 0), kf(1000, 3, -3, 255)]);
    // 1/2 of 3 = 1.5 rounds away from zero
    let f = frame_at(&d, 500_000).unwrap();
    assert_eq!((f.x, f.y), (2, -2));
    assert_eq!(f.time, 0);
    let one = dest("y", None, 0, vec![], vec![kf(40, 7, 7, 7)]);
    assert_eq!(frame_at(&one, -5), Some(kf(40, 7, 7, 7)));
    let none = dest("z", None, 0, vec![], vec![]);
    assert_eq!(frame_at(&none, 0), None);
}

#[test]
fn evaluate_frame_op_conditions() {
    let config = SkinConfigValues { option: Vec::new(), file_path: Vec::new(), op_map: vec![(32, false), (900, true)] };
    let timers = [TIMER_OFF; 256];
    let pops: Vec<u8> = Vec::new();
    let judge_line = dest("judge", None, 0, vec![32], vec![kf(0, 0, 200, 255)]);
    assert_eq!(draw_frame(&judge_line, &config, false, &pops, &timers, 1_000_000), None, "op 32 not selected");
    let bg = dest("bg", None, 0, vec![900, -32], vec![kf(0, 0, 0, 255)]);
    assert!(draw_frame(&bg, &config, false, &pops, &timers, 1_000_000).is_some());
    let unknown = dest("bg2", None, 0, vec![-12345], vec![kf(0, 0, 0, 255)]);
    assert!(draw_frame(&unknown, &config, false, &pops, &timers, 0).is_some(), "unknown ids are unselected");
}

#[test]
fn draw_frame_timers_and_pops() {
    let config = SkinConfigValues { option: Vec::new(), file_path: Vec::new(), op_map: Vec::new() };
    let mut timers = [TIMER_OFF; 256];
    let pg = dest("judge-pg", Some(46), -1, vec![], vec![kf(0, 0, 0, 255), kf(500, 0, 0, 255)]);
    // timer off: hidden
    assert_eq!(draw_frame(&pg, &config, true, &vec![0], &timers, 3_000_000), None);
    timers[46] = 2_900;
    // 100 ms after the timer started, PG popping: shown
    assert!(draw_frame(&pg, &config, true, &vec![0], &timers, 3_000_000).is_some());
    // a GREAT is popping, not a PG: hidden
    assert_eq!(draw_frame(&pg, &config, true, &vec![1], &timers, 3_000_000), None);
    // not a pop-up object: the filter does not apply
    assert!(draw_frame(&pg, &config, false, &vec![1], &timers, 3_000_000).is_some());
    // without a timer: hidden before the first key frame
    let late = dest("late", None, 0, vec![], vec![kf(1000, 0, 0, 255), kf(2000, 0, 0, 255)]);
    assert_eq!(draw_frame(&late, &config, false, &vec![], &timers, 999_999), None);
    assert!(draw_frame(&late, &config, false, &vec![], &timers, 1_000_000).is_some());
}

#[test]
fn judge_pop_ids() {
    let d = |id: &str| dest(id, None, 0, vec![], vec![]);
    assert_eq!(judge_pop_id(&d("judge-pg")), Some(0));
    assert_eq!(judge_pop_id(&d("judge-num-gr")), Some(1));
    assert_eq!(judge_pop_id(&d("judge-bd")), Some(3));
    assert_eq!(judge_pop_id(&d("judge-ms")), Some(5));
    assert_eq!(judge_pop_id(&d("judge-line")), None);
    assert_eq!(judge_pop_id(&d("bg")), None);
}

#[test]
fn image_animation_frames() {
    let mut timers = [TIMER_OFF; 256];
    // 4 frames per 400 ms cycle
    assert_eq!(frame_index(0, None, 4, 400, &timers), 0);
    assert_eq!(frame_index(150_000, None, 4, 400, &timers), 1);
    assert_eq!(frame_index(450_000, None, 4, 400, &timers), 0);
    assert_eq!(frame_index(350_000, None, 4, 0, &timers), 0, "no cycle: no animation");
    assert_eq!(frame_index(350_000, Some(10), 4, 400, &timers), 0, "timer off");
    timers[10] = 100;
    assert_eq!(frame_index(350_000, Some(10), 4, 400, &timers), 2);
    assert_eq!(frame_index(50_000, Some(10), 4, 400, &timers), 0, "before the timer started");
}

#[test]
fn atlas_crop_of_frames() {
    let img = ImageDef {
        id: String::from("lnb-w"),
        src: String::from("src-notes"),
        x: 140,
        y: 120,
        w: 90,
        h: 60,
        divx: 1,
        divy: 2,
        timer: None,
        cycle: 0,
    };
    assert_eq!(frame_uv(&img, 0, None), UvRect { min_x: 140, min_y: 120, max_x: 230, max_y: 150 });
    assert_eq!(frame_uv(&img, 1, None), UvRect { min_x: 140, min_y: 150, max_x: 230, max_y: 180 });
    assert_eq!(frame_uv(&img, 9, None), UvRect { min_x: 140, min_y: 150, max_x: 230, max_y: 180 }, "past the last frame");
    let whole = ImageDef { w: -1, h: -1, x: 0, y: 0, divy: 1, ..img.clone() };
    assert_eq!(frame_uv(&whole, 0, Some((1920, 1080))), UvRect { min_x: 0, min_y: 0, max_x: 1920, max_y: 1080 });
    assert_eq!(frame_uv(&whole, 0, None), UvRect { min_x: 0, min_y: 0, max_x: 1, max_y: 1 });
}

#[test]
fn text_frame_visibility() {
    let config = SkinConfigValues { option: Vec::new(), file_path: Vec::new(), op_map: Vec::new() };
    let fade_out = |timer: Option<i64>, loop_: i32| {
        let first = KeyFrame { time: 0, x: 100, y: 100, w: 50, h: 20, a: 255, r: 255, g: 255, b: 255 };
        let last = KeyFrame { time: 250, x: 0, y: 0, w: 0, h: 0, a: 0, r: 255, g: 255, b: 255 };
        dest("t", timer, loop_, vec![], vec![first, last])
    };
    let d = fade_out(Some(TIMER_READY as i64), -1);
    let mut timers = [TIMER_OFF; 256];
    // timer started at 1000 ms, scene at 1100 ms: 100 ms into the fade
    timers[TIMER_READY] = 1000;
    let f = draw_frame(&d, &config, false, &vec![], &timers, 1_100_000).expect("shown while the timer runs");
    assert!(f.a < 255, "alpha has started to fade at 100 ms");
    timers[TIMER_READY] = TIMER_OFF;
    assert!(draw_frame(&d, &config, false, &vec![], &timers, 1_100_000).is_none(), "hidden while the timer is off");
    // started at 0, scene at 5000 ms: past the last frame with loop -1
    timers[TIMER_READY] = 0;
    assert!(draw_frame(&d, &config, false, &vec![], &timers, 5_000_000).is_none(), "gone after playing once");
    // no timer, first frame at 250 ms
    let mut d2 = fade_out(None, 500);
    d2.frames[0].time = 250;
    assert!(draw_frame(&d2, &config, false, &vec![], &timers, 100_000).is_none(), "hidden before the first frame");
    assert!(draw_frame(&d2, &config, false, &vec![], &timers, 300_000).is_some(), "shown after the first frame");
}

#[test]
fn number_digits_ordered_left_to_right() {
    // 75 in three slots: the leading slot blank, then 7, then 5
    assert_eq!(number_glyphs(75, 3, 0, 11, 1), vec![(1, 7), (2, 5)]);
    // padded with glyph 0 / glyph 10
    assert_eq!(number_glyphs(75, 3, 1, 11, 1), vec![(0, 0), (1, 7), (2, 5)]);
    assert_eq!(number_glyphs(75, 3, 2, 11, 1), vec![(0, 10), (1, 7), (2, 5)]);
    // glyph 10 outside a 10-cell grid is not drawn
    assert_eq!(number_glyphs(75, 3, 2, 10, 1), vec![(1, 7), (2, 5)]);
}

#[test]
fn number_glyph_edges() {
    // zero keeps its last slot
    assert_eq!(number_glyphs(0, 3, 0, 10, 1), vec![(2, 0)]);
    // a negative value has no digit glyphs
    assert_eq!(number_glyphs(-5, 2, 0, 10, 1), vec![]);
    // more digits than slots: the low digits show
    assert_eq!(number_glyphs(1234, 2, 0, 10, 1), vec![(0, 3), (1, 4)]);
    // no slots
    assert_eq!(number_glyphs(7, 0, 0, 10, 1), vec![]);
    // a 2 × 5 grid holds glyphs 0..9
    assert_eq!(number_glyphs(90, 2, 0, 5, 2), vec![(0, 9), (1, 0)]);
}

#[test]
fn gauge_nodes_selection() {
    // NORMAL gauge (type 2): nodes 12..18 = full, full-border, empty,
    // empty-border, current, current-border; 50 parts, border 80 %.
    let count = |v: &Vec<Option<u64>>, n: u64| v.iter().filter(|x| **x == Some(n)).count();
    let empty = gauge_nodes(2, 50, 0, 10000, 8000);
    assert_eq!(empty.len(), 50);
    assert_eq!(count(&empty, 15), 39, "parts 1..39 below the border: empty-border");
    assert_eq!(count(&empty, 14), 11, "parts 40..50: empty");
    let full = gauge_nodes(2, 50, 10000, 10000, 8000);
    assert_eq!(count(&full, 13), 39, "parts 1..39: full-border");
    assert_eq!(count(&full, 12), 10, "parts 40..49: full");
    assert_eq!(full[49], Some(16), "part 50 is the current part");
    let half = gauge_nodes(2, 50, 5000, 10000, 8000);
    assert_eq!(count(&half, 13), 24, "parts 1..24: full-border");
    assert_eq!(half[24], Some(17), "part 25 is the current part, below the border");
    assert_eq!(count(&half, 15), 14, "parts 26..39: empty-border");
    assert_eq!(count(&half, 14), 11, "parts 40..50: empty");
}

#[test]
fn gauge_nodes_edges() {
    // a sliver of gauge still fills one part
    assert_eq!(gauge_nodes(2, 50, 1, 10000, 8000)[0], Some(17));
    // gauge above the maximum counts as full; maximum clamped to 1 %
    assert_eq!(gauge_nodes(0, 2, 500, 0, 0), vec![Some(0), Some(4)]);
    // types 6 and above share the groups of types 3 and above
    assert_eq!(gauge_nodes(6, 1, 0, 10000, 0), vec![Some(20)]);
    // no parts: one part; a negative type has no group
    assert_eq!(gauge_nodes(2, 0, 0, 10000, 0).len(), 1);
    assert_eq!(gauge_nodes(-1, 3, 0, 10000, 0), vec![None, None, None]);
}

#[test]
fn scroll_measure_works() {
    // (position in millionths of a measure, scroll in thousandths)
    let tl = vec![(0, 1000), (500_000, 2000), (2_000_000, 500)];
    // 0.3 → 1.0: 0.2 at scroll 1 + 0.5 at scroll 2 = 1.2 measures
    assert_eq!(scroll_distance(300_000, 1_000_000, &tl), 1_200_000_000);
    // a note behind: negative
    assert_eq!(scroll_distance(1_000_000, 300_000, &tl), -1_200_000_000);
    // across several changes: 0.1 × 1 + 1.5 × 2 + 0.5 × 0.5
    assert_eq!(scroll_distance(400_000, 2_500_000, &tl), 100_000_000 + 3_000_000_000 + 250_000_000);
    // no scroll change: linear
    assert_eq!(scroll_distance(0, 1_000_000, &vec![(0, 1000)]), 1_000_000_000);
    // same position: zero
    assert_eq!(scroll_distance(500_000, 500_000, &tl), 0);
}

#[test]
fn scroll_distance_weighs_changes_after_now() {
    // from 10 measures, scroll 2 from 10.3: 0.3 × 1 + 0.1 × 2
    let tl = vec![(0, 1000), (10_300_000, 2000)];
    assert_eq!(scroll_distance(10_000_000, 10_400_000, &tl), 300_000_000 + 200_000_000);
    // an empty timeline keeps scroll 1
    assert_eq!(scroll_distance(0, 250_000, &vec![]), 250_000_000);
}

#[test]
fn leading_blank_slot_counts() {
    assert_eq!(leading_blank_slots(75, 3), 1);
    assert_eq!(leading_blank_slots(0, 3), 2);
    assert_eq!(leading_blank_slots(123, 3), 0);
    assert_eq!(leading_blank_slots(5, 1), 0);
    assert_eq!(leading_blank_slots(5, 0), 0);
    // a leading digit outside the glyph grid still counts as a digit
    assert_eq!(leading_blank_slots(95, 3), 1);
    assert_eq!(number_glyphs(95, 3, 0, 5, 1), vec![]);
}

#[test]
fn note_images_and_skin_lanes() {
    assert_eq!(note_image(0, false, true), NoteImage::Note);
    assert_eq!(note_image(3, false, true), NoteImage::Note);
    assert_eq!(note_image(1, false, true), NoteImage::LnBody);
    assert_eq!(note_image(1, true, true), NoteImage::LnActive);
    assert_eq!(note_image(1, true, false), NoteImage::LnBody);
    assert_eq!(note_image(2, true, true), NoteImage::Mine);
    // the turntable is the skin's last lane
    assert_eq!(skin_lane(0, 6), 5);
    assert_eq!(skin_lane(0, 0), 0);
    assert_eq!(skin_lane(3, 6), 2);
}

#[test]
fn play_options_follow_the_session() {
    let mut config = SkinConfigValues {
        option: Vec::new(),
        file_path: Vec::new(),
        op_map: vec![(900, true), (81, false), (32, true), (1008, false), (80, false)],
    };
    config.set_play_options(true, true);
    assert!(config.is_option_enabled(81), "loaded once play started");
    assert!(!config.is_option_enabled(32), "auto play is on");
    assert!(!config.is_option_enabled(80), "no longer loading");
    assert!(config.is_option_enabled(900));
    assert!(!config.is_option_enabled(1008));
    config.set_play_options(false, false);
    assert!(!config.is_option_enabled(81));
    assert!(config.is_option_enabled(32));
    assert!(config.is_option_enabled(80));
}

#[test]
fn option_ids_after_a_failing_one_are_not_read() {
    let config = SkinConfigValues { option: Vec::new(), file_path: Vec::new(), op_map: vec![(900, false)] };
    let timers = [TIMER_OFF; 256];
    // 900 is not selected: hidden, and the id after it is never negated
    let d = dest("x", None, 0, vec![900, i64::MIN], vec![kf(0, 0, 0, 255)]);
    assert_eq!(draw_frame(&d, &config, false, &vec![], &timers, 0), None);
}
