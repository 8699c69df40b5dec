use rxbms::database::{
    chart_stats, decode_bms, scan_decide, scan_record, stale_paths, ScanStep, is_chart_file, is_video_file, measure_count, scan_chart, tally_notes, NoteRef, ScanReport,
};

#[test]
fn decode_shift_jis_text() {
    // "ああああ" in Shift_JIS
    let sjis = [0x82u8, 0xA0, 0x82, 0xA0, 0x82, 0xA0, 0x82, 0xA0];
    assert_eq!(decode_bms(&sjis), "ああああ");
    // UTF-8 is kept as is
    assert_eq!(decode_bms("hello".as_bytes()), "hello");
}

#[test]
fn decode_prefers_utf8() {
    let text = "#TITLE ありがとう";
    assert_eq!(decode_bms(text.as_bytes()), text);
    assert_eq!(decode_bms(&[]), "");
}

#[test]
fn chart_file_extensions() {
    assert!(is_chart_file("song.bms"));
    assert!(is_chart_file("song.BME"));
    assert!(is_chart_file("a.b.Bml"));
    assert!(is_chart_file("x.pms"));
    assert!(!is_chart_file("song.ogg"));
    assert!(!is_chart_file("bms"));
    assert!(!is_chart_file(".bms"), "a leading dot alone is no extension");
    assert!(is_chart_file(".hidden.bms"));
    assert!(!is_chart_file("song.bms.bak"));
    assert!(!is_chart_file("song."));
}

#[test]
fn video_file_extensions() {
    for name in ["a.wmv", "a.AVI", "a.mp4", "a.mkv", "a.flv", "a.mov", "a.mpg", "a.MPEG", "a.webm"] {
        assert!(is_video_file(name), "{name}");
    }
    assert!(!is_video_file("a.png"));
    assert!(!is_video_file("mp4"));
}

fn note(null_wav: bool, ch: &str) -> NoteRef {
    NoteRef { null_wav, channel: String::from(ch) }
}

#[test]
fn note_tally_by_channel() {
    let notes = vec![
        note(false, "11"),
        note(false, "01"),
        note(true, "12"),
        note(false, "51"),
        note(false, "03"),
        note(false, "71"),
        note(false, "2A"),
    ];
    let t = tally_notes(&notes);
    assert_eq!(t.note_count, 6);
    assert_eq!(t.playable_count, 3);
    assert_eq!(t.bgm_count, 1);
}

#[test]
fn measures_and_report() {
    assert_eq!(measure_count(None), 0);
    assert_eq!(measure_count(Some(1)), 2);
    let r = ScanReport::default();
    assert_eq!(r.added + r.updated + r.removed + r.unchanged + r.failed + r.scanned_dirs, 0);
}

const MINI_BMS: &str = "\
#PLAYER 1
#GENRE TEST
#TITLE Mini Chart
#ARTIST Tester
#BPM 150
#PLAYLEVEL 5
#WAV01 test.wav
#00111:01
#00101:01
";

#[test]
fn parse_mini_bms() {
    let chart = scan_chart(MINI_BMS.as_bytes()).expect("the mini chart parses");
    let bms = &chart.bms;
    assert_eq!(bms.music_info.title.as_deref(), Some("Mini Chart"));
    assert_eq!(bms.music_info.artist.as_deref(), Some("Tester"));
    assert_eq!(bms.music_info.genre.as_deref(), Some("TEST"));
    assert_eq!(bms.metadata.play_level, Some(5));
    assert_eq!(bms.bpm.bpm.as_ref().and_then(|v| v.raw().parse::<f64>().ok()), Some(150.0));
    // one note on channel 11 (playable) and one on 01 (background)
    assert_eq!(chart.stats.tally.note_count, 2);
    assert_eq!(chart.stats.tally.playable_count, 1);
    assert_eq!(chart.stats.tally.bgm_count, 1);
    assert_eq!(chart.stats.measure_count, 2);
}

#[test]
fn chart_stats_from_notes() {
    let n = |null_wav: bool, ch: &str| NoteRef { null_wav, channel: String::from(ch) };
    let notes = vec![n(false, "11"), n(false, "01"), n(true, "12"), n(false, "51"), n(false, "D1")];
    let s = chart_stats(&notes, Some(7));
    assert_eq!(s.tally.note_count, 4);
    assert_eq!(s.tally.playable_count, 2);
    assert_eq!(s.tally.bgm_count, 1);
    assert_eq!(s.measure_count, 8);
    assert_eq!(chart_stats(&vec![], None).measure_count, 0);
    assert_eq!(chart_stats(&vec![], Some(u64::MAX)).measure_count, u64::MAX);
}

#[test]
fn scan_chart_of_shift_jis_text() {
    // a Shift_JIS title decodes before parsing
    let mut bytes = b"#TITLE ".to_vec();
    bytes.extend_from_slice(&[0x82, 0xA0]);
    bytes.extend_from_slice(b"\n#WAV01 a.wav\n#00211:01\n");
    let chart = scan_chart(&bytes).expect("parses");
    assert_eq!(chart.bms.music_info.title.as_deref(), Some("あ"));
    assert_eq!(chart.stats.tally.note_count, 1);
    assert_eq!(chart.stats.measure_count, 3);
}

#[test]
fn scan_decisions() {
    let mut r = ScanReport::default();
    assert_eq!(scan_decide(&mut r, Some(100), 100), ScanStep::Unchanged);
    assert_eq!(r.unchanged, 1);
    assert_eq!(scan_decide(&mut r, Some(99), 100), ScanStep::Parse);
    assert_eq!(scan_decide(&mut r, None, 100), ScanStep::Parse);
    assert_eq!(r, ScanReport { unchanged: 1, ..ScanReport::default() });
    scan_record(&mut r, true, false, true);
    scan_record(&mut r, true, true, true);
    scan_record(&mut r, false, true, true);
    scan_record(&mut r, true, false, false);
    assert_eq!(r, ScanReport { scanned_dirs: 0, added: 1, updated: 1, removed: 0, unchanged: 1, failed: 2 });
}

#[test]
fn stale_paths_under_folder() {
    let s = |v: &[&str]| v.iter().map(|x| String::from(*x)).collect::<Vec<String>>();
    let stored = s(&["/songs/a.bms", "/songs/b.bms", "/songs2/c.bms", "/songs/", "/other/d.bms", "/songs/sub/e.bms"]);
    let on_disk = s(&["/songs/a.bms"]);
    assert_eq!(stale_paths("/songs", &stored, &on_disk), s(&["/songs/b.bms", "/songs/sub/e.bms"]));
    assert_eq!(stale_paths("/songs", &vec![], &on_disk), s(&[]));
}
