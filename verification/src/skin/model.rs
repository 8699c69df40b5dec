//! Skin object model (the parts of a skin description that hold plain values).
//!
//! - `source`: id → texture path (may hold a `*` wildcard);
//! - `image`: a crop of a source (`w`/`h` below zero mean the whole texture),
//!   split into a `divx × divy` grid of animation frames;
//! - `destination`: where and how an object is drawn over time (key frames
//!   with timer, loop and option conditions).

use vstd::prelude::*;

verus! {

/// A source texture (`skin.source`).
#[derive(Debug, Clone)]
pub struct Source {
    pub id: String,
    /// Path, possibly with a `*` wildcard (e.g. `Background/*.png`).
    pub path: String,
}

/// A font (`skin.font`).
#[derive(Debug, Clone)]
pub struct FontDef {
    pub id: String,
    pub path: String,
}

/// An image object (`skin.image`).
#[derive(Debug, Clone)]
pub struct ImageDef {
    pub id: String,
    pub src: String,
    /// Crop of the source texture in pixels; `w`/`h` at or below zero mean
    /// the whole texture.
    pub x: i32,
    pub y: i32,
    pub w: i32,
    pub h: i32,
    /// Animation grid (the crop is split into `divx × divy` equal cells).
    pub divx: u32,
    pub divy: u32,
    pub timer: Option<i64>,
    /// Animation cycle in milliseconds.
    pub cycle: i32,
}

/// A destination key frame (`dst[]`); omitted fields repeat the previous
/// frame, and the first frame defaults to zero position/size and full colour.
#[derive(Debug, Clone, Copy, PartialEq, Eq, Structural)]
pub struct KeyFrame {
    pub time: i32,
    pub x: i32,
    pub y: i32,
    pub w: i32,
    pub h: i32,
    pub a: i32,
    pub r: i32,
    pub g: i32,
    pub b: i32,
}

impl Default for KeyFrame {
    /// Time and geometry zero, colour and alpha 255.
    fn default() -> (f: Self)
        ensures
            f == (KeyFrame { time: 0, x: 0, y: 0, w: 0, h: 0, a: 255, r: 255, g: 255, b: 255 }),
    {
        KeyFrame { time: 0, x: 0, y: 0, w: 0, h: 0, a: 255, r: 255, g: 255, b: 255 }
    }
}

/// A destination (`skin.destination[]`): the animated placement of an object.
#[derive(Debug, Clone)]
pub struct Destination {
    pub id: String,
    pub timer: Option<i64>,
    /// Loop: `-1` disappears after the last frame; otherwise the time (ms)
    /// the animation loops back to.
    pub loop_: i32,
    /// Option conditions: a positive id must be selected, a negative one
    /// must not be.
    pub op: Vec<i64>,
    /// Custom offset ids applied.
    pub offsets: Vec<i32>,
    /// Blend mode (0 normal, 2 additive).
    pub blend: i32,
    pub filter: i32,
    pub frames: Vec<KeyFrame>,
}

/// The gauge object (`skin.gauge`): node images chosen per gauge part.
#[derive(Debug, Clone)]
pub struct GaugeDesc {
    pub id: String,
    /// Node image ids: 6 groups (gauge type) × 6 states
    /// [full, full-border, empty, empty-border, current, current-border].
    pub nodes: Vec<String>,
    /// Number of parts of the bar.
    pub parts: i32,
}

impl Default for GaugeDesc {
    /// No id, no nodes, 50 parts.
    fn default() -> (g: Self)
        ensures
            g.id@.len() == 0,
            g.nodes@.len() == 0,
            g.parts == 50,
    {
        GaugeDesc { id: String::new(), nodes: Vec::new(), parts: 50 }
    }
}

/// A key frame as written in a skin: each field given (as an integer) or
/// omitted.
#[derive(Debug, Clone, Copy, PartialEq, Eq, Structural)]
pub struct RawKeyFrame {
    pub time: Option<i64>,
    pub x: Option<i64>,
    pub y: Option<i64>,
    pub w: Option<i64>,
    pub h: Option<i64>,
    pub a: Option<i64>,
    pub r: Option<i64>,
    pub g: Option<i64>,
    pub b: Option<i64>,
}

/// A field: the given value (cut to 32 bits) or else `prev`.
pub open spec fn field_or(v: Option<i64>, prev: i32) -> i32 {
    match v {
        Some(n) => n as i32,
        None => prev,
    }
}

/// Key frame `raw` over the frame `prev` it inherits from.
pub open spec fn apply_raw(raw: RawKeyFrame, prev: KeyFrame) -> KeyFrame {
    KeyFrame {
        time: field_or(raw.time, prev.time),
        x: field_or(raw.x, prev.x),
        y: field_or(raw.y, prev.y),
        w: field_or(raw.w, prev.w),
        h: field_or(raw.h, prev.h),
        a: field_or(raw.a, prev.a),
        r: field_or(raw.r, prev.r),
        g: field_or(raw.g, prev.g),
        b: field_or(raw.b, prev.b),
    }
}

/// The first frame's defaults: time and geometry 0, colour and alpha 255.
pub open spec fn first_frame_base() -> KeyFrame {
    KeyFrame { time: 0, x: 0, y: 0, w: 0, h: 0, a: 255, r: 255, g: 255, b: 255 }
}

/// The key frames of a destination: the first frame over the defaults,
/// every later frame over the frame before it.
pub open spec fn key_frames_spec(raw: Seq<RawKeyFrame>) -> Seq<KeyFrame>
    decreases raw.len(),
{
    if raw.len() == 0 {
        Seq::empty()
    } else {
        let before = key_frames_spec(raw.drop_last());
        let prev = if before.len() == 0 { first_frame_base() } else { before.last() };
        before.push(apply_raw(raw.last(), prev))
    }
}

fn field_or_exec(v: Option<i64>, prev: i32) -> (r: i32)
    ensures
        r == field_or(v, prev),
{
    match v {
        Some(n) => n as i32,
        None => prev,
    }
}

/// Resolves the key frames of a destination (see [`key_frames_spec`]).
pub fn key_frames(raw: &Vec<RawKeyFrame>) -> (frames: Vec<KeyFrame>)
    ensures
        frames@ == key_frames_spec(raw@),
{
    let mut frames: Vec<KeyFrame> = Vec::new();
    let mut prev = KeyFrame::default();
    let mut i: usize = 0;
    while i < raw.len()
        invariant
            0 <= i <= raw@.len(),
            frames@ == key_frames_spec(raw@.take(i as int)),
            prev == (if i == 0 { first_frame_base() } else { frames@.last() }),
            frames@.len() == i,
        decreases raw.len() - i,
    {
        let k = raw[i];
        let f = KeyFrame {
            time: field_or_exec(k.time, prev.time),
            x: field_or_exec(k.x, prev.x),
            y: field_or_exec(k.y, prev.y),
            w: field_or_exec(k.w, prev.w),
            h: field_or_exec(k.h, prev.h),
            a: field_or_exec(k.a, prev.a),
            r: field_or_exec(k.r, prev.r),
            g: field_or_exec(k.g, prev.g),
            b: field_or_exec(k.b, prev.b),
        };
        frames.push(f);
        proof {
            assert(raw@.take(i as int + 1).drop_last() == raw@.take(i as int));
            assert(raw@.take(i as int + 1).last() == k);
        }
        prev = f;
        i = i + 1;
    }
    proof {
        assert(raw@.take(raw@.len() as int) == raw@);
    }
    frames
}

/// The crop fields of an image-like object as written in a skin: each given
/// (as an integer) or omitted.
#[derive(Debug, Clone)]
pub struct RawCrop {
    pub src: Option<String>,
    pub x: Option<i64>,
    pub y: Option<i64>,
    pub w: Option<i64>,
    pub h: Option<i64>,
    pub divx: Option<i64>,
    pub divy: Option<i64>,
    pub timer: Option<i64>,
    pub cycle: Option<i64>,
}

/// An integer field: the given value or `default`.
pub open spec fn int_or(v: Option<i64>, default: i64) -> i64 {
    match v {
        Some(n) => n,
        None => default,
    }
}

/// The image an `image` entry describes: omitted fields default to source
/// `""`, position 0, size -1 (whole texture), a 1 × 1 grid and cycle 0;
/// values are cut to the field widths.
pub open spec fn image_def_spec(id: Seq<char>, raw: RawCrop, img: ImageDef) -> bool {
    &&& img.id@ == id
    &&& img.src@ == match raw.src { Some(s) => s@, None => Seq::empty() }
    &&& img.x == int_or(raw.x, 0) as i32
    &&& img.y == int_or(raw.y, 0) as i32
    &&& img.w == int_or(raw.w, -1i64) as i32
    &&& img.h == int_or(raw.h, -1i64) as i32
    &&& img.divx == int_or(raw.divx, 1) as u32
    &&& img.divy == int_or(raw.divy, 1) as u32
    &&& img.timer == raw.timer
    &&& img.cycle == int_or(raw.cycle, 0) as i32
}

fn int_or_exec(v: Option<i64>, default: i64) -> (r: i64)
    ensures
        r == int_or(v, default),
{
    match v {
        Some(n) => n,
        None => default,
    }
}

impl ImageDef {
    /// Builds the image of a skin `image` entry (see [`image_def_spec`]).
    pub fn from_raw(id: String, raw: RawCrop) -> (img: Self)
        ensures
            image_def_spec(id@, raw, img),
    {
        let src = match raw.src {
            Some(s) => s,
            None => String::new(),
        };
        ImageDef {
            id,
            src,
            x: int_or_exec(raw.x, 0) as i32,
            y: int_or_exec(raw.y, 0) as i32,
            w: int_or_exec(raw.w, -1) as i32,
            h: int_or_exec(raw.h, -1) as i32,
            divx: int_or_exec(raw.divx, 1) as u32,
            divy: int_or_exec(raw.divy, 1) as u32,
            timer: raw.timer,
            cycle: int_or_exec(raw.cycle, 0) as i32,
        }
    }
}

/// Every key frame after the first keeps the fields its raw entry omits.
pub proof fn lemma_frames_inherit(raw: Seq<RawKeyFrame>, i: int)
    requires
        0 < i < raw.len(),
    ensures
        key_frames_spec(raw).len() == raw.len(),
        raw[i].x is None ==> key_frames_spec(raw)[i].x == key_frames_spec(raw)[i - 1].x,
        raw[i].time is None ==> key_frames_spec(raw)[i].time == key_frames_spec(raw)[i - 1].time,
        raw[i].a is None ==> key_frames_spec(raw)[i].a == key_frames_spec(raw)[i - 1].a,
    decreases raw.len(),
{
    lemma_frames_len(raw);
    if i < raw.len() - 1 {
        lemma_frames_inherit(raw.drop_last(), i);
        assert(raw.drop_last()[i] == raw[i]);
        assert(key_frames_spec(raw) == key_frames_spec(raw.drop_last()).push(
            apply_raw(raw.last(), key_frames_spec(raw.drop_last()).last()),
        ));
    } else {
        lemma_frames_len(raw.drop_last());
    }
}

/// One key frame per raw entry.
pub proof fn lemma_frames_len(raw: Seq<RawKeyFrame>)
    ensures
        key_frames_spec(raw).len() == raw.len(),
    decreases raw.len(),
{
    if raw.len() > 0 {
        lemma_frames_len(raw.drop_last());
    }
}

} // verus!
