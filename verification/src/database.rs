//! Chart library helpers: source decoding, chart and video file names, note
//! statistics of a parsed chart and the scan report.

use vstd::prelude::*;
use vstd::utf8::{decode_utf8, valid_utf8};

use bms_rs::bms::model::Bms;

use crate::text::{ascii_lower, chars_of, chars_prefix, str_eq, to_ascii_lower};

verus! {

/// std's `str::from_utf8`: the text of `bytes` when they are valid UTF-8.
#[verifier::external_body]
fn str_from_utf8(bytes: &[u8]) -> (r: Option<&str>)
    ensures
        r is Some <==> valid_utf8(bytes@),
        r matches Some(s) ==> s@ == decode_utf8(bytes@),
{
    std::str::from_utf8(bytes).ok()
}

/// The text encoding_rs's Shift_JIS decoder makes of `bytes` (malformed
/// sequences become U+FFFD; a byte-order mark selects its own encoding).
pub uninterp spec fn shift_jis_decoded(bytes: Seq<u8>) -> Seq<char>;

/// encoding_rs's `Encoding::decode` with `SHIFT_JIS`: the decoded text. The
/// error flag it also returns is not kept.
#[verifier::external_body]
fn decode_shift_jis(bytes: &[u8]) -> (r: String)
    ensures
        r@ == shift_jis_decoded(bytes@),
{
    let (text, _, _) = encoding_rs::SHIFT_JIS.decode(bytes);
    text.into_owned()
}

/// Decodes chart source bytes: as UTF-8 when they are valid UTF-8, else as
/// Shift_JIS (most Japanese charts).
pub fn decode_bms(bytes: &[u8]) -> (s: String)
    ensures
        valid_utf8(bytes@) ==> s@ == decode_utf8(bytes@),
        !valid_utf8(bytes@) ==> s@ == shift_jis_decoded(bytes@),
{
    match str_from_utf8(bytes) {
        Some(text) => text.to_owned(),
        None => decode_shift_jis(bytes),
    }
}

/// The extension of a file name: what follows its last `.`, when that dot
/// is not the name's first character.
pub open spec fn extension_of(name: Seq<char>) -> Option<Seq<char>> {
    if exists|i: int| 0 < i < name.len() && name[i] == '.' {
        let i = choose|i: int|
            0 < i < name.len() && name[i] == '.' && forall|j: int| i < j < name.len() ==> name[j] != '.';
        Some(name.skip(i + 1))
    } else {
        None
    }
}

/// ASCII lower case of a text.
pub open spec fn lower_text(s: Seq<char>) -> Seq<char> {
    s.map_values(|c: char| ascii_lower(c))
}

/// The extension of `name` in ASCII lower case, if it has one.
fn lower_extension(name: &str) -> (r: Option<Vec<char>>)
    ensures
        r is Some <==> extension_of(name@) is Some,
        r matches Some(v) ==> v@ == lower_text(extension_of(name@).unwrap()),
{
    let chars = chars_of(name);
    let mut i: usize = chars.len();
    while i > 0 && chars[i - 1] != '.'
        invariant
            0 <= i <= chars@.len(),
            chars@ == name@,
            forall|j: int| i <= j < chars@.len() ==> chars@[j] != '.',
        decreases i,
    {
        i = i - 1;
    }
    if i <= 1 {
        proof {
            assert forall|k: int| 0 < k < name@.len() implies name@[k] != '.' by {
                if k >= i {
                } else {
                    assert(i == 1 && k == 0 || i == 0);
                }
            }
        }
        return None;
    }
    let dot = i - 1;
    proof {
        let w = choose|k: int|
            0 < k < name@.len() && name@[k] == '.' && forall|j: int| k < j < name@.len() ==> name@[j] != '.';
        assert(0 < dot < name@.len() && name@[dot as int] == '.');
        if w < dot {
            assert(name@[dot as int] != '.');
        } else if w > dot {
            assert(chars@[w] != '.');
        }
    }
    let mut out: Vec<char> = Vec::new();
    let mut k: usize = dot + 1;
    while k < chars.len()
        invariant
            dot + 1 <= k <= chars@.len(),
            chars@ == name@,
            out@ == lower_text(chars@.subrange(dot + 1, k as int)),
        decreases chars.len() - k,
    {
        let c = to_ascii_lower(chars[k]);
        out.push(c);
        proof {
            assert(chars@.subrange(dot + 1, k + 1) == chars@.subrange(dot + 1, k as int).push(chars@[k as int]));
        }
        k = k + 1;
    }
    proof {
        assert(chars@.subrange(dot + 1, chars@.len() as int) == name@.skip(dot + 1));
    }
    Some(out)
}

/// Whether the characters `v` spell `word`.
fn chars_equal(v: &Vec<char>, word: &str) -> (b: bool)
    ensures
        b == (v@ == word@),
{
    let w = chars_of(word);
    if v.len() != w.len() {
        return false;
    }
    let mut i: usize = 0;
    while i < v.len()
        invariant
            0 <= i <= v@.len(),
            v@.len() == w@.len(),
            w@ == word@,
            forall|j: int| 0 <= j < i ==> v@[j] == w@[j],
        decreases v.len() - i,
    {
        if v[i] != w[i] {
            return false;
        }
        i = i + 1;
    }
    assert(v@ =~= w@);
    true
}

/// A chart file: extension `bms`, `bme`, `bml` or `pms` in any letter case.
pub open spec fn is_chart_name(name: Seq<char>) -> bool {
    match extension_of(name) {
        Some(e) => {
            let l = lower_text(e);
            l == "bms"@ || l == "bme"@ || l == "bml"@ || l == "pms"@
        },
        None => false,
    }
}

/// Whether a file name names a chart (see [`is_chart_name`]).
pub fn is_chart_file(name: &str) -> (b: bool)
    ensures
        b == is_chart_name(name@),
{
    match lower_extension(name) {
        Some(e) => chars_equal(&e, "bms") || chars_equal(&e, "bme") || chars_equal(&e, "bml")
            || chars_equal(&e, "pms"),
        None => false,
    }
}

/// A background video: extension `wmv`, `avi`, `mp4`, `mkv`, `flv`, `mov`,
/// `mpg`, `mpeg` or `webm` in any letter case.
pub open spec fn is_video_name(name: Seq<char>) -> bool {
    match extension_of(name) {
        Some(e) => {
            let l = lower_text(e);
            l == "wmv"@ || l == "avi"@ || l == "mp4"@ || l == "mkv"@ || l == "flv"@ || l == "mov"@
                || l == "mpg"@ || l == "mpeg"@ || l == "webm"@
        },
        None => false,
    }
}

/// Whether a file name names a background video (see [`is_video_name`]).
pub fn is_video_file(name: &str) -> (b: bool)
    ensures
        b == is_video_name(name@),
{
    match lower_extension(name) {
        Some(e) => chars_equal(&e, "wmv") || chars_equal(&e, "avi") || chars_equal(&e, "mp4")
            || chars_equal(&e, "mkv") || chars_equal(&e, "flv") || chars_equal(&e, "mov")
            || chars_equal(&e, "mpg") || chars_equal(&e, "mpeg") || chars_equal(&e, "webm"),
        None => false,
    }
}

/// A note object of a parsed chart: whether its sound id is the null id,
/// and its channel (two characters, e.g. `"11"`).
#[derive(Debug, Clone)]
pub struct NoteRef {
    pub null_wav: bool,
    pub channel: String,
}

/// Note statistics of a chart.
#[derive(Debug, Clone, Copy, PartialEq, Eq, Structural)]
pub struct NoteTally {
    /// Notes with a sound.
    pub note_count: usize,
    /// Of them, on a player channel (`1x`-`6x`: visible, hidden, long).
    pub playable_count: usize,
    /// Of them, on the background-sound channel `01`.
    pub bgm_count: usize,
}

/// A channel of a note that a player plays (first digit 1-6).
pub open spec fn player_channel(ch: Seq<char>) -> bool {
    ch.len() > 0 && ('1' <= ch[0] <= '6')
}

/// Statistics of the first `n` notes.
pub open spec fn tally_spec(notes: Seq<NoteRef>, n: int) -> NoteTally
    decreases n,
{
    if n <= 0 {
        NoteTally { note_count: 0, playable_count: 0, bgm_count: 0 }
    } else {
        let t = tally_spec(notes, n - 1);
        let r = notes[n - 1];
        if r.null_wav {
            t
        } else if r.channel@ == "01"@ {
            NoteTally { note_count: (t.note_count + 1) as usize, bgm_count: (t.bgm_count + 1) as usize, ..t }
        } else if player_channel(r.channel@) {
            NoteTally { note_count: (t.note_count + 1) as usize, playable_count: (t.playable_count + 1) as usize, ..t }
        } else {
            NoteTally { note_count: (t.note_count + 1) as usize, ..t }
        }
    }
}

/// Counts the notes with a sound, those on player channels and those on
/// the background-sound channel.
pub fn tally_notes(notes: &Vec<NoteRef>) -> (t: NoteTally)
    ensures
        t == tally_spec(notes@, notes@.len() as int),
{
    let mut t = NoteTally { note_count: 0, playable_count: 0, bgm_count: 0 };
    let mut i: usize = 0;
    while i < notes.len()
        invariant
            0 <= i <= notes@.len(),
            t == tally_spec(notes@, i as int),
            t.note_count <= i,
            t.playable_count <= t.note_count,
            t.bgm_count <= t.note_count,
        decreases notes.len() - i,
    {
        let r = &notes[i];
        if !r.null_wav {
            let ch = chars_of(r.channel.as_str());
            let bgm = ch.len() == 2 && ch[0] == '0' && ch[1] == '1';
            proof {
                reveal_strlit("01");
                if ch@ == "01"@ {
                    assert(ch@.len() == 2 && ch@[0] == '0' && ch@[1] == '1');
                }
                if bgm {
                    assert(ch@ =~= "01"@);
                }
            }
            if bgm {
                t.note_count = t.note_count + 1;
                t.bgm_count = t.bgm_count + 1;
            } else if ch.len() > 0 && '1' <= ch[0] && ch[0] <= '6' {
                t.note_count = t.note_count + 1;
                t.playable_count = t.playable_count + 1;
            } else {
                t.note_count = t.note_count + 1;
            }
        }
        i = i + 1;
    }
    t
}

/// Number of measures of a chart whose last object lies in measure
/// `last_track` (none: 0).
pub fn measure_count(last_track: Option<u64>) -> (n: u64)
    requires
        last_track matches Some(t) ==> t < u64::MAX,
    ensures
        n == match last_track {
            Some(t) => t + 1,
            None => 0,
        },
{
    match last_track {
        Some(t) => t + 1,
        None => 0,
    }
}

/// Summary of one scan of the chart folders.
#[derive(Debug, Clone, Copy, PartialEq, Eq, Structural)]
pub struct ScanReport {
    /// Folders scanned.
    pub scanned_dirs: usize,
    /// Charts added.
    pub added: usize,
    /// Charts updated (file changed).
    pub updated: usize,
    /// Charts removed (file gone).
    pub removed: usize,
    /// Charts skipped as unchanged.
    pub unchanged: usize,
    /// Charts or folders that failed.
    pub failed: usize,
}

impl Default for ScanReport {
    /// All zero.
    fn default() -> (r: Self)
        ensures
            r == (ScanReport { scanned_dirs: 0, added: 0, updated: 0, removed: 0, unchanged: 0, failed: 0 }),
    {
        ScanReport { scanned_dirs: 0, added: 0, updated: 0, removed: 0, unchanged: 0, failed: 0 }
    }
}


/// A chart as bms-rs models it (`bms_rs::bms::model::Bms`); opaque here.
#[verifier::external_type_specification]
#[verifier::external_body]
pub struct ExBms(Bms);

/// bms-rs's `parse_bms` with `default_config()` on chart text: the chart when
/// it parses (`BmsOutput::bms`), and the number of warnings. `#RANDOM` blocks
/// are resolved with a freshly seeded random generator, so the same text can
/// give different charts; nothing is stated of the result.
#[verifier::external_body]
fn parse_bms_text(source: &str) -> (r: (Option<Bms>, usize)) {
    let output = bms_rs::bms::parse_bms(source, bms_rs::bms::default_config());
    (output.bms.ok(), output.warnings.len())
}

/// bms-rs's `Notes::all_notes` on a chart's notes, each taken as whether its
/// sound id is the null id (`ObjId::is_null`) and its channel's text
/// (`NoteChannelId`'s `Display`). The chart is opaque here, so nothing is
/// stated of the result.
#[verifier::external_body]
fn chart_note_refs(bms: &Bms) -> (r: Vec<NoteRef>) {
    bms.notes().all_notes().map(|n| NoteRef { null_wav: n.wav_id.is_null(), channel: n.channel_id.to_string() }).collect()
}

/// bms-rs's `Bms::last_obj_time`: the measure (track) of the chart's last
/// object, if it has any. The chart is opaque here, so nothing is stated of
/// the result.
#[verifier::external_body]
fn chart_last_track(bms: &Bms) -> (r: Option<u64>) {
    bms.last_obj_time().map(|t| t.track().0)
}

/// Statistics of a parsed chart.
#[derive(Debug, Clone, Copy, PartialEq, Eq, Structural)]
pub struct ChartStats {
    pub tally: NoteTally,
    /// Number of measures.
    pub measure_count: u64,
}

/// Measures of a chart whose last object lies in measure `last_track`: one
/// more than that measure (the largest measure number stays as it is), none
/// without objects.
pub open spec fn measures_spec(last_track: Option<u64>) -> u64 {
    match last_track {
        Some(t) => if t < u64::MAX { (t + 1) as u64 } else { u64::MAX },
        None => 0,
    }
}

/// Statistics of a chart from its notes and the measure of its last object.
pub fn chart_stats(notes: &Vec<NoteRef>, last_track: Option<u64>) -> (r: ChartStats)
    ensures
        r.tally == tally_spec(notes@, notes@.len() as int),
        r.measure_count == measures_spec(last_track),
{
    let tally = tally_notes(notes);
    let m = match last_track {
        Some(t) => if t < u64::MAX { measure_count(Some(t)) } else { u64::MAX },
        None => 0,
    };
    ChartStats { tally, measure_count: m }
}

proof fn lemma_tally_bounds(notes: Seq<NoteRef>, n: int)
    requires
        0 <= n <= notes.len(),
        n <= usize::MAX,
    ensures
        tally_spec(notes, n).playable_count + tally_spec(notes, n).bgm_count <= tally_spec(notes, n).note_count <= n,
    decreases n,
{
    if n > 0 {
        lemma_tally_bounds(notes, n - 1);
    }
}

/// A chart file read for the song database: the chart, its note objects,
/// the measure of its last object, its statistics and the parser's warning
/// count.
pub struct ScannedChart {
    pub bms: Bms,
    pub notes: Vec<NoteRef>,
    pub last_track: Option<u64>,
    pub stats: ChartStats,
    pub warnings: usize,
}

/// Reads chart file bytes: decodes them (UTF-8, else Shift_JIS), parses the
/// text with bms-rs and, when it gives a chart, takes its statistics. Whatever
/// the parser gives, the statistics are those of the chart's note objects:
/// playable and background notes are among the counted notes, and no more
/// notes are counted than there are note objects.
pub fn scan_chart(bytes: &[u8]) -> (r: Option<ScannedChart>)
    ensures
        r matches Some(c) ==> {
            &&& c.stats == (ChartStats { tally: tally_spec(c.notes@, c.notes@.len() as int), measure_count: measures_spec(c.last_track) })
            &&& c.stats.tally.playable_count + c.stats.tally.bgm_count <= c.stats.tally.note_count
            &&& c.stats.tally.note_count <= c.notes@.len()
        },
{
    let source = decode_bms(bytes);
    let (parsed, warnings) = parse_bms_text(source.as_str());
    match parsed {
        Some(bms) => {
            let notes = chart_note_refs(&bms);
            let last_track = chart_last_track(&bms);
            let stats = chart_stats(&notes, last_track);
            proof {
                lemma_tally_bounds(notes@, notes.len() as int);
            }
            Some(ScannedChart { bms, notes, last_track, stats, warnings })
        },
        None => None,
    }
}


/// What to do with a chart file found by a scan.
#[derive(Debug, Clone, Copy, PartialEq, Eq, Structural)]
pub enum ScanStep {
    /// The stored row is up to date: nothing to read.
    Unchanged,
    /// The file is new or changed: read and store it.
    Parse,
}

/// Decides on a chart file found by a scan: it is unchanged (and counted
/// so) exactly when its stored modification time (ms) equals the file's;
/// otherwise it is to be read.
pub fn scan_decide(report: &mut ScanReport, stored_mtime: Option<i64>, mtime: i64) -> (step: ScanStep)
    requires
        old(report).unchanged < usize::MAX,
    ensures
        stored_mtime == Some(mtime) ==> step == ScanStep::Unchanged && *final(report) == (ScanReport {
            unchanged: (old(report).unchanged + 1) as usize,
            ..*old(report)
        }),
        stored_mtime != Some(mtime) ==> step == ScanStep::Parse && *final(report) == *old(report),
{
    match stored_mtime {
        Some(t) => {
            if t == mtime {
                report.unchanged = report.unchanged + 1;
                ScanStep::Unchanged
            } else {
                ScanStep::Parse
            }
        },
        None => ScanStep::Parse,
    }
}

/// The counter of the report that the outcome of reading a chart raises: a
/// chart that did not parse or could not be stored failed; otherwise it was
/// updated when a row existed, else added.
pub open spec fn scan_outcome(report: ScanReport, parsed: bool, existed: bool, written: bool) -> ScanReport {
    if !parsed || !written {
        ScanReport { failed: (report.failed + 1) as usize, ..report }
    } else if existed {
        ScanReport { updated: (report.updated + 1) as usize, ..report }
    } else {
        ScanReport { added: (report.added + 1) as usize, ..report }
    }
}

/// Counts the outcome of reading a chart (see [`scan_outcome`]).
pub fn scan_record(report: &mut ScanReport, parsed: bool, existed: bool, written: bool)
    requires
        !parsed || !written ==> old(report).failed < usize::MAX,
        parsed && written && existed ==> old(report).updated < usize::MAX,
        parsed && written && !existed ==> old(report).added < usize::MAX,
    ensures
        *final(report) == scan_outcome(*old(report), parsed, existed, written),
{
    if !parsed || !written {
        report.failed = report.failed + 1;
    } else if existed {
        report.updated = report.updated + 1;
    } else {
        report.added = report.added + 1;
    }
}

/// The texts of a list of strings.
pub open spec fn strs(v: Seq<String>) -> Seq<Seq<char>> {
    v.map_values(|x: String| x@)
}

/// A stored chart path under `folder` (it starts with `folder/` and is
/// longer than that) whose file is no longer on disk.
pub open spec fn is_stale(folder: Seq<char>, on_disk: Seq<Seq<char>>, p: Seq<char>) -> bool {
    let pre = folder.push('/');
    pre.is_prefix_of(p) && p.len() > pre.len() && !on_disk.contains(p)
}

/// The stale paths among `stored`, in order.
pub open spec fn stale_seq(folder: Seq<char>, stored: Seq<Seq<char>>, on_disk: Seq<Seq<char>>) -> Seq<Seq<char>>
    decreases stored.len(),
{
    if stored.len() == 0 {
        Seq::empty()
    } else {
        let rest = stale_seq(folder, stored.drop_last(), on_disk);
        if is_stale(folder, on_disk, stored.last()) {
            rest.push(stored.last())
        } else {
            rest
        }
    }
}

fn contains_str(v: &Vec<String>, s: &str) -> (r: bool)
    ensures
        r == strs(v@).contains(s@),
{
    let mut i: usize = 0;
    while i < v.len()
        invariant
            0 <= i <= v@.len(),
            forall|k: int| 0 <= k < i ==> v@[k]@ != s@,
        decreases v.len() - i,
    {
        if str_eq(v[i].as_str(), s) {
            assert(strs(v@)[i as int] == s@);
            return true;
        }
        i = i + 1;
    }
    proof {
        if strs(v@).contains(s@) {
            let k = choose|k: int| 0 <= k < strs(v@).len() && strs(v@)[k] == s@;
            assert(v@[k]@ == s@);
        }
    }
    false
}

/// The stored chart paths under `folder` whose files are gone from disk, in
/// stored order (see [`is_stale`]): their rows are to be removed.
pub fn stale_paths(folder: &str, stored: &Vec<String>, on_disk: &Vec<String>) -> (r: Vec<String>)
    ensures
        strs(r@) == stale_seq(folder@, strs(stored@), strs(on_disk@)),
{
    let mut pre = chars_of(folder);
    pre.push('/');
    let mut out: Vec<String> = Vec::new();
    let mut i: usize = 0;
    while i < stored.len()
        invariant
            0 <= i <= stored@.len(),
            pre@ == folder@.push('/'),
            strs(out@) == stale_seq(folder@, strs(stored@).take(i as int), strs(on_disk@)),
        decreases stored.len() - i,
    {
        proof {
            assert(strs(stored@).take(i + 1).drop_last() =~= strs(stored@).take(i as int));
            assert(strs(stored@).take(i + 1).last() == stored@[i as int]@);
        }
        let p = stored[i].as_str();
        let cs = chars_of(p);
        let stale = chars_prefix(&pre, &cs) && cs.len() > pre.len() && !contains_str(on_disk, p);
        if stale {
            let ghost before = out@;
            out.push(stored[i].clone());
            proof {
                assert(strs(out@) =~= strs(before).push(stored@[i as int]@));
            }
        }
        i = i + 1;
    }
    proof {
        assert(strs(stored@).take(stored@.len() as int) =~= strs(stored@));
    }
    out
}

} // verus!
