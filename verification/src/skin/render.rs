//! Per-frame skin evaluation: destination animation, image animation frames
//! and texture crops, judgement pop-up ids.
//!
//! Times are in microseconds (key-frame and timer times are milliseconds).

use vstd::prelude::*;
use vstd::arithmetic::div_mod::{lemma_fundamental_div_mod, lemma_fundamental_div_mod_converse, lemma_mod_pos_bound};

use crate::skin::config::{first_flag, SkinConfigValues};
use crate::skin::model::{Destination, ImageDef, KeyFrame};
use crate::skin::state::TIMER_OFF;
use crate::text::{chars_of, chars_prefix, str_eq};

verus! {

/// A texture crop rectangle in pixels (`min` inclusive, `max` exclusive).
#[derive(Debug, Clone, Copy, PartialEq, Eq, Structural)]
pub struct UvRect {
    pub min_x: u32,
    pub min_y: u32,
    pub max_x: u32,
    pub max_y: u32,
}

/// `a` rounded to the nearest integer, halves away from zero, where `a = p / q`.
pub open spec fn round_div(p: int, q: int) -> int
    recommends
        q > 0,
{
    if p >= 0 {
        (2 * p + q) / (2 * q)
    } else {
        -((-2 * p + q) / (2 * q))
    }
}

/// Linear interpolation from `x` (at `ta`) to `y` (at `tb`) at time `t`,
/// rounded to the nearest integer (halves away from zero).
pub open spec fn lerp_round(x: int, y: int, t: int, ta: int, tb: int) -> int {
    if tb == ta {
        x
    } else {
        round_div(x * (tb - ta) + (y - x) * (t - ta), tb - ta)
    }
}

/// The key frame interpolated between `a` and `b` at time `t` (µs).
pub open spec fn lerp_frame(a: KeyFrame, b: KeyFrame, t: int) -> KeyFrame {
    let ta = a.time * 1000;
    let tb = b.time * 1000;
    KeyFrame {
        time: 0,
        x: lerp_round(a.x as int, b.x as int, t, ta, tb) as i32,
        y: lerp_round(a.y as int, b.y as int, t, ta, tb) as i32,
        w: lerp_round(a.w as int, b.w as int, t, ta, tb) as i32,
        h: lerp_round(a.h as int, b.h as int, t, ta, tb) as i32,
        a: lerp_round(a.a as int, b.a as int, t, ta, tb) as i32,
        r: lerp_round(a.r as int, b.r as int, t, ta, tb) as i32,
        g: lerp_round(a.g as int, b.g as int, t, ta, tb) as i32,
        b: lerp_round(a.b as int, b.b as int, t, ta, tb) as i32,
    }
}

/// The animation time after applying the loop rule (µs): past the loop
/// point an animation whose last frame is the loop point stays there,
/// and any other wraps back to the loop point, with a period of the
/// distance between the loop point and the last frame.
pub open spec fn looped_time(frames: Seq<KeyFrame>, loop_: i32, t: int) -> int {
    let tn = frames.last().time * 1000;
    let dstloop = loop_ * 1000;
    let span = if tn >= dstloop { tn - dstloop } else { dstloop - tn };
    if tn > 0 && t > dstloop {
        if tn == dstloop {
            dstloop
        } else {
            (t - dstloop) % span + dstloop
        }
    } else {
        t
    }
}

/// The frame at time `t` within the key frames from index `i` on: the first
/// pair of neighbours whose span holds `t` is interpolated; past them all
/// the last frame holds.
pub open spec fn frame_from(frames: Seq<KeyFrame>, i: int, t: int) -> KeyFrame
    decreases frames.len() - i,
{
    if i + 1 >= frames.len() {
        frames.last()
    } else if frames[i].time * 1000 <= t && t <= frames[i + 1].time * 1000 {
        lerp_frame(frames[i], frames[i + 1], t)
    } else {
        frame_from(frames, i + 1, t)
    }
}

/// The frame of a destination at time `t` (µs), or `None` when it is not
/// shown (no key frames, or a play-once animation that has finished).
pub open spec fn frame_at_spec(frames: Seq<KeyFrame>, loop_: i32, t: int) -> Option<KeyFrame> {
    if frames.len() == 0 {
        None
    } else if frames.len() == 1 {
        Some(frames[0])
    } else if loop_ == -1 && t > frames.last().time * 1000 {
        None
    } else {
        let t2 = looped_time(frames, loop_, t);
        if t2 <= frames[0].time * 1000 {
            Some(frames[0])
        } else {
            Some(frame_from(frames, 0, t2))
        }
    }
}

/// `p / q` rounded to nearest (halves away from zero), for `q > 0`.
fn round_div_exec(p: i128, q: i128) -> (r: i128)
    requires
        q > 0,
        -0x2_0000_0000_0000_0000_0000_0000 <= p <= 0x2_0000_0000_0000_0000_0000_0000,
        q <= 0x1_0000_0000_0000_0000_0000_0000,
    ensures
        r == round_div(p as int, q as int),
{
    let two_q: i128 = 2 * q;
    if p >= 0 {
        let num: i128 = 2 * p + q;
        num / two_q
    } else {
        let num: i128 = q - 2 * p;
        proof {
            assert(0 <= num / two_q <= num) by (nonlinear_arith)
                requires
                    num >= 0,
                    two_q > 0,
            ;
        }
        let quot: i128 = num / two_q;
        -quot
    }
}

/// Rounded interpolation stays between its end points.
proof fn lemma_lerp_round_bounds(x: int, y: int, t: int, ta: int, tb: int)
    requires
        ta < tb,
        ta <= t <= tb,
    ensures
        (if x <= y { x } else { y }) <= lerp_round(x, y, t, ta, tb) <= (if x <= y { y } else { x }),
{
    let q = tb - ta;
    let p = x * q + (y - x) * (t - ta);
    let lo = if x <= y { x } else { y };
    let hi = if x <= y { y } else { x };
    assert(lo * q <= p <= hi * q) by (nonlinear_arith)
        requires
            q > 0,
            0 <= t - ta <= q,
            p == x * q + (y - x) * (t - ta),
            lo == (if x <= y { x } else { y }),
            hi == (if x <= y { y } else { x }),
    ;
    if p >= 0 {
        assert(lo <= (2 * p + q) / (2 * q) <= hi) by (nonlinear_arith)
            requires
                q > 0,
                p >= 0,
                lo * q <= p <= hi * q,
        {
            let r = (2 * p + q) / (2 * q);
            let m = (2 * p + q) % (2 * q);
            assert(2 * p + q == r * (2 * q) + m);
            assert(0 <= m < 2 * q);
        }
    } else {
        assert(lo <= -((-2 * p + q) / (2 * q)) <= hi) by (nonlinear_arith)
            requires
                q > 0,
                p < 0,
                lo * q <= p <= hi * q,
        {
            let r = (-2 * p + q) / (2 * q);
            let m = (-2 * p + q) % (2 * q);
            assert(-2 * p + q == r * (2 * q) + m);
            assert(0 <= m < 2 * q);
        }
    }
}

/// One interpolated channel.
fn lerp_channel(x: i32, y: i32, t: i64, ta: i64, tb: i64) -> (r: i32)
    requires
        ta < tb,
        ta <= t <= tb,
    ensures
        r == lerp_round(x as int, y as int, t as int, ta as int, tb as int),
{
    let q: i128 = (tb as i128) - (ta as i128);
    let d: i128 = (y as i128) - (x as i128);
    let dt: i128 = (t as i128) - (ta as i128);
    proof {
        assert(-0x8000_0000_0000_0000_0000_0000 <= (x as i128) * q <= 0x8000_0000_0000_0000_0000_0000) by (nonlinear_arith)
            requires
                0 < q <= 0x1_0000_0000_0000_0000,
                -0x8000_0000 <= x < 0x8000_0000,
        ;
        assert(-0x1_0000_0000_0000_0000_0000_0000 <= d * dt <= 0x1_0000_0000_0000_0000_0000_0000) by (nonlinear_arith)
            requires
                0 <= dt <= 0x1_0000_0000_0000_0000,
                -0x1_0000_0000 <= d <= 0x1_0000_0000,
        ;
    }
    let xq: i128 = (x as i128) * q;
    let ddt: i128 = d * dt;
    let p: i128 = xq + ddt;
    proof {
        lemma_lerp_round_bounds(x as int, y as int, t as int, ta as int, tb as int);
    }
    let r = round_div_exec(p, q);
    r as i32
}

/// The key frame interpolated between `a` and `b` at time `t` (µs).
fn lerp_key_frame(a: &KeyFrame, b: &KeyFrame, t: i64) -> (f: KeyFrame)
    requires
        a.time * 1000 < b.time * 1000,
        a.time * 1000 <= t <= b.time * 1000,
    ensures
        f == lerp_frame(*a, *b, t as int),
{
    let ta = (a.time as i64) * 1000;
    let tb = (b.time as i64) * 1000;
    KeyFrame {
        time: 0,
        x: lerp_channel(a.x, b.x, t, ta, tb),
        y: lerp_channel(a.y, b.y, t, ta, tb),
        w: lerp_channel(a.w, b.w, t, ta, tb),
        h: lerp_channel(a.h, b.h, t, ta, tb),
        a: lerp_channel(a.a, b.a, t, ta, tb),
        r: lerp_channel(a.r, b.r, t, ta, tb),
        g: lerp_channel(a.g, b.g, t, ta, tb),
        b: lerp_channel(a.b, b.b, t, ta, tb),
    }
}

/// The frame of destination `d` at time `t_us` (µs), following the loop
/// rule: `loop_ == -1` disappears after the last frame; past the loop point
/// an animation whose last frame is the loop point stays on it (an entrance
/// animation plays once), any other wraps back to the loop point. Between
/// key frames the values are interpolated linearly and rounded.
pub fn frame_at(d: &Destination, t_us: i64) -> (r: Option<KeyFrame>)
    ensures
        r == frame_at_spec(d.frames@, d.loop_, t_us as int),
{
    let n = d.frames.len();
    if n == 0 {
        return None;
    }
    if n <= 1 {
        return Some(d.frames[0]);
    }
    let t0: i64 = (d.frames[0].time as i64) * 1000;
    let tn: i64 = (d.frames[n - 1].time as i64) * 1000;
    if d.loop_ == -1 && t_us > tn {
        return None;
    }
    let dstloop: i64 = (d.loop_ as i64) * 1000;
    let t: i64 = if tn > 0 && t_us > dstloop {
        if tn == dstloop {
            dstloop
        } else {
            let span: i64 = if tn >= dstloop { tn - dstloop } else { dstloop - tn };
            let since: i128 = (t_us as i128) - (dstloop as i128);
            let rem: i128 = since % (span as i128);
            (rem as i64) + dstloop
        }
    } else {
        t_us
    };
    if t <= t0 {
        return Some(d.frames[0]);
    }
    let mut i: usize = 0;
    while i + 1 < n
        invariant
            0 <= i < n,
            n == d.frames@.len(),
            n >= 2,
            t > d.frames@[0].time * 1000,
            frame_at_spec(d.frames@, d.loop_, t_us as int) == Some(
                frame_from(d.frames@, i as int, t as int),
            ),
        decreases n - i,
    {
        let ta: i64 = (d.frames[i].time as i64) * 1000;
        let tb: i64 = (d.frames[i + 1].time as i64) * 1000;
        if t >= ta && t <= tb {
            if tb == ta {
                let a = d.frames[i];
                let f = KeyFrame {
                    time: 0,
                    x: a.x,
                    y: a.y,
                    w: a.w,
                    h: a.h,
                    a: a.a,
                    r: a.r,
                    g: a.g,
                    b: a.b,
                };
                assert(f == lerp_frame(d.frames@[i as int], d.frames@[i + 1], t as int));
                return Some(f);
            }
            return Some(lerp_key_frame(&d.frames[i], &d.frames[i + 1], t));
        }
        i = i + 1;
    }
    Some(d.frames[n - 1])
}

/// Animation frame of an image: `floor(t × total / cycle) mod total`
/// (t in ms, relative to its timer's start when it has one); 0 when the
/// image does not animate, its timer is off, or the time is before the start.
pub open spec fn frame_index_spec(t_us: int, timer_start_ms: Option<int>, total: nat, cycle: int) -> nat {
    if cycle <= 0 || total <= 1 {
        0
    } else if timer_start_ms matches Some(s) && s == TIMER_OFF {
        0
    } else {
        let t = match timer_start_ms {
            Some(s) => t_us - s * 1000,
            None => t_us,
        };
        if t < 0 {
            0
        } else {
            let q = (t * total) / (cycle * 1000);
            let q2 = if q > u32::MAX { u32::MAX as int } else { q };
            (q2 % (total as int)) as nat
        }
    }
}

/// The animation frame of an image at time `t_us` (µs), with its `timer`
/// read from `timers` (ms start times, or [`TIMER_OFF`]).
pub fn frame_index(t_us: i64, timer: Option<i64>, total: u32, cycle: i32, timers: &[i64; 256]) -> (f: u32)
    requires
        timer matches Some(id) ==> 0 <= id < 256,
    ensures
        f == frame_index_spec(
            t_us as int,
            match timer {
                Some(id) => Some(timers@[id as int] as int),
                None => None,
            },
            total as nat,
            cycle as int,
        ),
        total > 1 ==> f < total,
        total <= 1 ==> f == 0,
{
    if cycle <= 0 || total <= 1 {
        return 0;
    }
    let mut t: i128 = t_us as i128;
    match timer {
        Some(id) => {
            let tv = timers[id as usize];
            if tv == TIMER_OFF {
                return 0;
            }
            t = t - (tv as i128) * 1000;
        },
        None => {},
    }
    if t < 0 {
        return 0;
    }
    proof {
        assert(0 <= t * (total as i128) <= 0x1_0000_0000_0000_0000_0000_0000_0000) by (nonlinear_arith)
            requires
                0 <= t <= 0x1_0000_0000_0000_0000_0000,
                total <= 0xFFFF_FFFF,
        ;
    }
    let q = (t * (total as i128)) / ((cycle as i128) * 1000);
    let q2: u32 = if q > (u32::MAX as i128) {
        u32::MAX
    } else {
        q as u32
    };
    q2 % total
}

/// The texture size used for an image crop: its own size, or the source
/// texture's size (`src_size`) when its `w`/`h` ask for the whole texture.
pub open spec fn crop_size(img: ImageDef, src_size: Option<(u32, u32)>) -> (int, int) {
    if img.w <= 0 || img.h <= 0 {
        match src_size {
            Some((w, h)) => (w as int, h as int),
            None => (if img.w >= 1 { img.w as int } else { 1 }, if img.h >= 1 { img.h as int } else { 1 }),
        }
    } else {
        (img.w as int, img.h as int)
    }
}

/// The unsigned reading of a signed 32-bit coordinate (two's complement).
pub open spec fn as_u32(x: i32) -> int {
    if x >= 0 {
        x as int
    } else {
        x + 0x1_0000_0000
    }
}

/// The crop of animation frame `frame` of an image (row-major grid cells;
/// frames past the last use the last).
pub open spec fn frame_uv_spec(img: ImageDef, frame: nat, src_size: Option<(u32, u32)>) -> UvRect {
    let (iw, ih) = crop_size(img, src_size);
    let total = if img.divx * img.divy >= 1 { img.divx * img.divy } else { 1 };
    let f = if frame < total { frame as int } else { total - 1 };
    let col = f % (img.divx as int);
    let row = f / (img.divx as int);
    let cw = if iw / (img.divx as int) >= 1 { iw / (img.divx as int) } else { 1 };
    let ch = if ih / (img.divy as int) >= 1 { ih / (img.divy as int) } else { 1 };
    let sx = as_u32(img.x) + col * cw;
    let sy = as_u32(img.y) + row * ch;
    UvRect { min_x: sx as u32, min_y: sy as u32, max_x: (sx + cw) as u32, max_y: (sy + ch) as u32 }
}

/// The crop fits in 32-bit pixel coordinates (the grid is non-empty).
pub open spec fn frame_uv_fits(img: ImageDef, src_size: Option<(u32, u32)>) -> bool {
    let (iw, ih) = crop_size(img, src_size);
    &&& img.divx > 0
    &&& img.divy > 0
    &&& img.divx * img.divy <= u32::MAX
    &&& as_u32(img.x) + iw + img.divx <= u32::MAX
    &&& as_u32(img.y) + ih + img.divy <= u32::MAX
}

/// The texture crop of animation frame `frame` of image `img`; `src_size`
/// is the size of its source texture, used when the image asks for the
/// whole texture.
pub fn frame_uv(img: &ImageDef, frame: u32, src_size: Option<(u32, u32)>) -> (r: UvRect)
    requires
        frame_uv_fits(*img, src_size),
    ensures
        r == frame_uv_spec(*img, frame as nat, src_size),
{
    let (iw, ih): (u32, u32) = if img.w <= 0 || img.h <= 0 {
        match src_size {
            Some(size) => size,
            None => (if img.w >= 1 { img.w as u32 } else { 1 }, if img.h >= 1 { img.h as u32 } else { 1 }),
        }
    } else {
        (img.w as u32, img.h as u32)
    };
    proof {
        assert(img.divx * img.divy >= 1) by (nonlinear_arith)
            requires
                img.divx > 0,
                img.divy > 0,
        ;
    }
    let cells = img.divx * img.divy;
    let total = if cells >= 1 {
        cells
    } else {
        1
    };
    let f = if frame < total {
        frame
    } else {
        total - 1
    };
    let col = f % img.divx;
    let row = f / img.divx;
    let cw0 = iw / img.divx;
    let cell_w = if cw0 >= 1 {
        cw0
    } else {
        1
    };
    let ch0 = ih / img.divy;
    let cell_h = if ch0 >= 1 {
        ch0
    } else {
        1
    };
    let ux: u64 = if img.x >= 0 {
        img.x as u64
    } else {
        (img.x as i64 + 0x1_0000_0000) as u64
    };
    let uy: u64 = if img.y >= 0 {
        img.y as u64
    } else {
        (img.y as i64 + 0x1_0000_0000) as u64
    };
    proof {
        assert(col < img.divx);
        assert(row < img.divy) by (nonlinear_arith)
            requires
                f < img.divx * img.divy,
                row == f / img.divx,
                img.divx > 0,
        ;
        assert(col * cell_w + cell_w <= iw + img.divx) by (nonlinear_arith)
            requires
                col < img.divx,
                cell_w == (if iw / img.divx >= 1 { iw / img.divx } else { 1 }),
                img.divx > 0,
        {
            if iw / img.divx >= 1 {
                assert((col + 1) * (iw / img.divx) <= img.divx * (iw / img.divx));
                assert(img.divx * (iw / img.divx) <= iw);
            }
        }
        assert(row * cell_h + cell_h <= ih + img.divy) by (nonlinear_arith)
            requires
                row < img.divy,
                cell_h == (if ih / img.divy >= 1 { ih / img.divy } else { 1 }),
                img.divy > 0,
        {
            if ih / img.divy >= 1 {
                assert((row + 1) * (ih / img.divy) <= img.divy * (ih / img.divy));
                assert(img.divy * (ih / img.divy) <= ih);
            }
        }
    }
    let sx = ux + (col as u64) * (cell_w as u64);
    let sy = uy + (row as u64) * (cell_h as u64);
    UvRect { min_x: sx as u32, min_y: sy as u32, max_x: (sx + cell_w as u64) as u32, max_y: (sy + cell_h as u64) as u32 }
}

/// Judgement shown by a judgement pop-up destination: `judge-<j>` or
/// `judge-num-<j>` with `<j>` one of pg, gr, gd, bd, pr, ms (0-5).
pub open spec fn judge_code(s: Seq<char>) -> Option<u8> {
    if s == "pg"@ {
        Some(0u8)
    } else if s == "gr"@ {
        Some(1u8)
    } else if s == "gd"@ {
        Some(2u8)
    } else if s == "bd"@ {
        Some(3u8)
    } else if s == "pr"@ {
        Some(4u8)
    } else if s == "ms"@ {
        Some(5u8)
    } else {
        None
    }
}

/// The judgement a destination pops up for: its id with the `judge-num-`
/// prefix removed (else the `judge-` prefix) names it; other ids give `None`.
pub open spec fn judge_pop_spec(id: Seq<char>) -> Option<u8> {
    let p1 = "judge-num-"@;
    let p2 = "judge-"@;
    if p1.is_prefix_of(id) {
        judge_code(id.skip(p1.len() as int))
    } else if p2.is_prefix_of(id) {
        judge_code(id.skip(p2.len() as int))
    } else {
        None
    }
}

/// The rest of `s` after `prefix`, if `s` starts with it.
fn strip_prefix<'a>(s: &'a str, prefix: &str) -> (r: Option<&'a str>)
    ensures
        r is Some <==> prefix@.is_prefix_of(s@),
        r matches Some(rest) ==> rest@ == s@.skip(prefix@.len() as int),
{
    let cs = chars_of(s);
    let cp = chars_of(prefix);
    if chars_prefix(&cp, &cs) {
        let rest = s.substring_char(cp.len(), cs.len());
        assert(rest@ =~= s@.skip(prefix@.len() as int));
        Some(rest)
    } else {
        None
    }
}

/// Judgement code of a two-letter judgement name.
fn judge_code_of(s: &str) -> (r: Option<u8>)
    ensures
        r == judge_code(s@),
{
    if str_eq(s, "pg") {
        Some(0)
    } else if str_eq(s, "gr") {
        Some(1)
    } else if str_eq(s, "gd") {
        Some(2)
    } else if str_eq(s, "bd") {
        Some(3)
    } else if str_eq(s, "pr") {
        Some(4)
    } else if str_eq(s, "ms") {
        Some(5)
    } else {
        None
    }
}

/// The judgement (0 PG, 1 GR, 2 GD, 3 BD, 4 PR, 5 air POOR) a judgement
/// pop-up destination shows (`judge-pg`, `judge-num-pg`, …); `None` for any
/// other destination.
pub fn judge_pop_id(d: &Destination) -> (r: Option<u8>)
    ensures
        r == judge_pop_spec(d.id@),
{
    let id = d.id.as_str();
    let rest = match strip_prefix(id, "judge-num-") {
        Some(r) => Some(r),
        None => strip_prefix(id, "judge-"),
    };
    match rest {
        Some(r) => judge_code_of(r),
        None => None,
    }
}

/// The option conditions `ops` hold: each positive id is selected, each
/// other id's negation is not.
pub open spec fn ops_hold(op_map: Seq<(i64, bool)>, ops: Seq<i64>) -> bool {
    forall|k: int| 0 <= k < ops.len() ==> op_passes(op_map, #[trigger] ops[k])
}

/// One option condition holds: a positive id is selected, another id's
/// negation is not.
pub open spec fn op_passes(op_map: Seq<(i64, bool)>, o: i64) -> bool {
    if o > 0 {
        first_flag(op_map, o)
    } else {
        !first_flag(op_map, (-o) as i64)
    }
}

/// The option conditions are tested in order up to the first that fails;
/// none reached is `i64::MIN` (whose negation overflows).
pub open spec fn ops_checkable(op_map: Seq<(i64, bool)>, ops: Seq<i64>) -> bool {
    forall|k: int|
        0 <= k < ops.len() && #[trigger] ops[k] == i64::MIN ==> exists|q: int| 0 <= q < k && !op_passes(op_map, #[trigger] ops[q])
}

/// Animation time of a destination at scene time `scene_us` (µs), or `None`
/// when it is not drawn: a destination on a timer runs from the timer's
/// start (never before 0) and is hidden while the timer is off (a timer id
/// outside the table counts as far in the past); one without a timer uses
/// the scene time and is hidden before its first key frame.
pub open spec fn anim_time_spec(d: Destination, timers: Seq<i64>, scene_us: int) -> Option<int> {
    match d.timer {
        Some(id) => if 0 <= id < 256 {
            let v = timers[id as int];
            if v == TIMER_OFF {
                None
            } else {
                let t = scene_us - v * 1000;
                Some(if t < 0 { 0 } else if t > i64::MAX { i64::MAX as int } else { t })
            }
        } else {
            Some(TIMER_OFF as int)
        },
        None => {
            let first = if d.frames@.len() > 0 { d.frames@[0].time * 1000 } else { 0 };
            if scene_us < first {
                None
            } else {
                Some(scene_us)
            }
        },
    }
}

/// The frame a destination is drawn with this frame, or `None` when it is
/// not drawn: its option conditions must hold; a judgement pop-up object
/// shows only the judgement that popped; then its animation time picks the
/// key frame.
pub open spec fn draw_frame_spec(
    d: Destination,
    op_map: Seq<(i64, bool)>,
    judge_object: bool,
    pops: Seq<u8>,
    timers: Seq<i64>,
    scene_us: int,
) -> Option<KeyFrame> {
    if !ops_hold(op_map, d.op@) {
        None
    } else if judge_object && judge_pop_spec(d.id@) is Some && !pops.contains(judge_pop_spec(d.id@).unwrap()) {
        None
    } else {
        match anim_time_spec(d, timers, scene_us) {
            Some(t) => frame_at_spec(d.frames@, d.loop_, t),
            None => None,
        }
    }
}

/// The frame destination `d` is drawn with at scene time `scene_us` (µs), or
/// `None` when it is not drawn (see [`draw_frame_spec`]). `judge_object`
/// marks the judgement pop-up objects and `pops` holds the judgements
/// popping now; `timers` holds timer start times (ms).
pub fn draw_frame(
    d: &Destination,
    config: &SkinConfigValues,
    judge_object: bool,
    pops: &Vec<u8>,
    timers: &[i64; 256],
    scene_us: i64,
) -> (r: Option<KeyFrame>)
    requires
        ops_checkable(config.op_map@, d.op@),
    ensures
        r == draw_frame_spec(*d, config.op_map@, judge_object, pops@, timers@, scene_us as int),
{
    let mut k: usize = 0;
    while k < d.op.len()
        invariant
            0 <= k <= d.op@.len(),
            ops_checkable(config.op_map@, d.op@),
            forall|q: int| 0 <= q < k ==> op_passes(config.op_map@, #[trigger] d.op@[q]),
        decreases d.op.len() - k,
    {
        let id = d.op[k];
        proof {
            if id == i64::MIN {
                assert(d.op@[k as int] == i64::MIN);
                let q = choose|q: int| 0 <= q < k && !op_passes(config.op_map@, #[trigger] d.op@[q]);
                assert(op_passes(config.op_map@, d.op@[q]));
            }
        }
        let ok = if id > 0 {
            config.is_option_enabled(id)
        } else {
            !config.is_option_enabled(-id)
        };
        if !ok {
            return None;
        }
        k = k + 1;
    }
    if judge_object {
        match judge_pop_id(d) {
            Some(expect) => {
                let mut found = false;
                let mut q: usize = 0;
                while q < pops.len()
                    invariant
                        0 <= q <= pops@.len(),
                        found <==> exists|m: int| 0 <= m < q && pops@[m] == expect,
                    decreases pops.len() - q,
                {
                    if pops[q] == expect {
                        found = true;
                    }
                    q = q + 1;
                }
                if !found {
                    return None;
                }
            },
            None => {},
        }
    }
    let t: i64 = match d.timer {
        Some(id) => {
            if 0 <= id && id < 256 {
                let v = timers[id as usize];
                if v == TIMER_OFF {
                    return None;
                }
                let t128: i128 = (scene_us as i128) - (v as i128) * 1000;
                if t128 < 0 {
                    0
                } else if t128 > (i64::MAX as i128) {
                    i64::MAX
                } else {
                    t128 as i64
                }
            } else {
                TIMER_OFF
            }
        },
        None => {
            let first: i64 = if d.frames.len() > 0 {
                (d.frames[0].time as i64) * 1000
            } else {
                0
            };
            if scene_us < first {
                return None;
            }
            scene_us
        },
    };
    frame_at(d, t)
}


/// The gauge maximum used for drawing: clamped to 1 %..1000 % (hundredths).
pub open spec fn gauge_draw_max(max_centi: int) -> int {
    if max_centi < 100 {
        100
    } else if max_centi > 100_000 {
        100_000
    } else {
        max_centi
    }
}

/// Number of filled parts of a bar of `parts` parts: the gauge (clamped to
/// 0..max) as a share of the parts, rounded down, but at least one part
/// while the gauge is above zero.
pub open spec fn gauge_filled_parts(value_centi: int, max: int, parts: int) -> int {
    let v = if value_centi < 0 { 0 } else if value_centi > max { max } else { value_centi };
    if v > 0 {
        let n = v * parts / max;
        if n < 1 { 1 } else { n }
    } else {
        0
    }
}

/// The node image (index into the gauge's node list) of part `i` (1-based):
/// the gauge type picks a group of six (types 6 and above share the groups
/// of types 3 and above); within it the part is full (0), current (4) or
/// empty (2), plus one for a part below the border. `None` for a type with
/// no group.
pub open spec fn gauge_node_spec(gauge_type: int, parts: int, value_centi: int, max_centi: int, border_centi: int, i: int) -> Option<int> {
    let group = if gauge_type >= 6 { gauge_type - 3 } else { gauge_type };
    let max = gauge_draw_max(max_centi);
    let filled = gauge_filled_parts(value_centi, max, parts);
    let state = if filled == i { 4int } else if filled > i { 0int } else { 2int };
    let below = if i * max < border_centi * parts { 1int } else { 0int };
    if group < 0 {
        None
    } else {
        Some(group * 6 + state + below)
    }
}

/// The node image of each part of the gauge bar (`parts` parts, at least
/// one), part 1 first (see [`gauge_node_spec`]); gauge, maximum and border
/// in hundredths of a percent point.
pub fn gauge_nodes(gauge_type: i32, parts: i32, value_centi: i64, max_centi: i64, border_centi: i64) -> (r: Vec<Option<u64>>)
    ensures
        r@.len() == if parts < 1 { 1 } else { parts as int },
        forall|k: int|
            0 <= k < r@.len() ==> (#[trigger] r@[k]) == match gauge_node_spec(
                gauge_type as int,
                if parts < 1 { 1 } else { parts as int },
                value_centi as int,
                max_centi as int,
                border_centi as int,
                k + 1,
            ) {
                Some(n) => Some(n as u64),
                None => None,
            },
{
    let p: i32 = if parts < 1 { 1 } else { parts };
    let max: i64 = if max_centi < 100 {
        100
    } else if max_centi > 100_000 {
        100_000
    } else {
        max_centi
    };
    let v: i64 = if value_centi < 0 {
        0
    } else if value_centi > max {
        max
    } else {
        value_centi
    };
    let filled: i64 = if v > 0 {
        assert(0 <= v * (p as i64) <= 100_000 * 0x8000_0000) by (nonlinear_arith)
            requires
                0 < v <= 100_000,
                1 <= p <= 0x7fff_ffff,
        ;
        let n: i64 = v * (p as i64) / max;
        if n < 1 { 1 } else { n }
    } else {
        0
    };
    assert(filled == gauge_filled_parts(value_centi as int, max as int, p as int));
    let group: i64 = if gauge_type >= 6 { gauge_type as i64 - 3 } else { gauge_type as i64 };
    let mut out: Vec<Option<u64>> = Vec::new();
    let mut i: i64 = 1;
    while i <= p as i64
        invariant
            1 <= i <= p as int + 1,
            1 <= p,
            p == (if parts < 1 { 1 } else { parts as int }),
            max == gauge_draw_max(max_centi as int),
            100 <= max <= 100_000,
            filled == gauge_filled_parts(value_centi as int, max as int, p as int),
            group == (if gauge_type >= 6 { gauge_type - 3 } else { gauge_type as int }),
            out@.len() == i - 1,
            forall|k: int|
                0 <= k < out@.len() ==> (#[trigger] out@[k]) == match gauge_node_spec(
                    gauge_type as int,
                    p as int,
                    value_centi as int,
                    max_centi as int,
                    border_centi as int,
                    k + 1,
                ) {
                    Some(n) => Some(n as u64),
                    None => None,
                },
        decreases p as int + 1 - i,
    {
        let state: i64 = if filled == i as i64 {
            4
        } else if filled > i as i64 {
            0
        } else {
            2
        };
        assert(0 <= (i as i128) * (max as i128) <= 0x8000_0000 * 100_000) by (nonlinear_arith)
            requires
                1 <= i <= 0x7fff_ffff,
                100 <= max <= 100_000,
        ;
        assert(-0x8000_0000_0000_0000 * 0x8000_0000 <= (border_centi as i128) * (p as i128)
            <= 0x8000_0000_0000_0000 * 0x8000_0000) by (nonlinear_arith)
            requires
                -0x8000_0000_0000_0000 <= border_centi <= 0x7fff_ffff_ffff_ffff,
                1 <= p <= 0x7fff_ffff,
        ;
        let lhs: i128 = (i as i128) * (max as i128);
        let rhs: i128 = (border_centi as i128) * (p as i128);
        let below: i64 = if lhs < rhs { 1 } else { 0 };
        let node: Option<u64> = if group < 0 {
            None
        } else {
            Some((group * 6 + state + below) as u64)
        };
        out.push(node);
        i = i + 1;
    }
    out
}


/// Which of its lane's note images a note is drawn with.
#[derive(Debug, Clone, Copy, PartialEq, Eq, Structural)]
pub enum NoteImage {
    /// A normal (or hidden) note.
    Note,
    /// The body of a long note.
    LnBody,
    /// The body of a long note being held, when the skin has that image.
    LnActive,
    /// A landmine.
    Mine,
}

/// The image of a note of kind `kind` (0 normal, 1 long, 2 landmine, 3
/// hidden): a held long note uses the active body image when the lane has
/// one.
pub open spec fn note_image_spec(kind: u8, ln_active: bool, has_active_image: bool) -> NoteImage {
    if kind == 1 {
        if ln_active && has_active_image {
            NoteImage::LnActive
        } else {
            NoteImage::LnBody
        }
    } else if kind == 2 {
        NoteImage::Mine
    } else {
        NoteImage::Note
    }
}

/// The image a note is drawn with (see [`note_image_spec`]).
pub fn note_image(kind: u8, ln_active: bool, has_active_image: bool) -> (r: NoteImage)
    ensures
        r == note_image_spec(kind, ln_active, has_active_image),
{
    if kind == 1 {
        if ln_active && has_active_image {
            NoteImage::LnActive
        } else {
            NoteImage::LnBody
        }
    } else if kind == 2 {
        NoteImage::Mine
    } else {
        NoteImage::Note
    }
}

/// The skin lane of a play lane, for a skin with `skin_lanes` note lanes:
/// key `n` is skin lane `n - 1` and the turntable (0) the skin's last lane
/// (0 when the skin has none).
pub fn skin_lane(lane: usize, skin_lanes: usize) -> (r: usize)
    ensures
        r == if lane == 0 {
            if skin_lanes == 0 { 0 } else { skin_lanes - 1 }
        } else {
            lane - 1
        },
{
    if lane == 0 {
        if skin_lanes == 0 { 0 } else { skin_lanes - 1 }
    } else {
        lane - 1
    }
}


/// Key-frame times strictly increase.
pub open spec fn frames_increasing(frames: Seq<KeyFrame>) -> bool {
    forall|a: int, b: int| 0 <= a < b < frames.len() ==> frames[a].time < frames[b].time
}

proof fn lemma_round_div_exact(y: int, q: int)
    requires
        q > 0,
    ensures
        round_div(y * q, q) == y,
{
    if y * q >= 0 {
        assert(2 * (y * q) + q == y * (2 * q) + q) by (nonlinear_arith);
        lemma_fundamental_div_mod_converse(2 * (y * q) + q, 2 * q, y, q);
    } else {
        assert(-2 * (y * q) + q == (-y) * (2 * q) + q) by (nonlinear_arith);
        lemma_fundamental_div_mod_converse(-2 * (y * q) + q, 2 * q, -y, q);
    }
}

proof fn lemma_lerp_at_end(x: int, y: int, ta: int, tb: int)
    requires
        ta < tb,
    ensures
        lerp_round(x, y, tb, ta, tb) == y,
{
    let q = tb - ta;
    assert(x * q + (y - x) * (tb - ta) == y * q) by (nonlinear_arith)
        requires
            q == tb - ta,
    ;
    lemma_round_div_exact(y, q);
}

proof fn lemma_frame_from_end(frames: Seq<KeyFrame>, i: int)
    requires
        frames.len() >= 2,
        0 <= i <= frames.len() - 2,
        frames_increasing(frames),
    ensures
        frame_from(frames, i, frames.last().time * 1000) == lerp_frame(
            frames[frames.len() - 2],
            frames.last(),
            frames.last().time * 1000,
        ),
    decreases frames.len() - i,
{
    let n = frames.len();
    assert(frames.last() == frames[n - 1]);
    if i < n - 2 {
        assert(frames[i + 1].time < frames[n - 1].time);
        lemma_frame_from_end(frames, i + 1);
    } else {
        assert(frames[i].time < frames[n - 1].time);
    }
}

/// The cases of a destination's frame at time `t` (µs): no key frames, no
/// frame; one key frame, always that one; a destination that does not loop
/// (`loop -1`) disappears after its last key frame; otherwise there is a
/// frame.
pub proof fn lemma_frame_at_cases(frames: Seq<KeyFrame>, loop_: i32, t: int)
    ensures
        frames.len() == 0 ==> frame_at_spec(frames, loop_, t) is None,
        frames.len() == 1 ==> frame_at_spec(frames, loop_, t) == Some(frames[0]),
        frames.len() >= 2 && loop_ == -1 && t > frames.last().time * 1000 ==> frame_at_spec(frames, loop_, t) is None,
        frames.len() >= 2 && !(loop_ == -1 && t > frames.last().time * 1000) ==> frame_at_spec(frames, loop_, t) is Some,
{
}

/// An entrance animation (its loop point is its last key frame) stays on
/// its last key frame once it has played.
pub proof fn lemma_entrance_animation_holds(frames: Seq<KeyFrame>, loop_: i32, t: int)
    requires
        frames.len() >= 2,
        frames_increasing(frames),
        frames.last().time > 0,
        loop_ as int == frames.last().time,
        t > frames.last().time * 1000,
    ensures
        frame_at_spec(frames, loop_, t) matches Some(f) && {
            let l = frames.last();
            f.x == l.x && f.y == l.y && f.w == l.w && f.h == l.h && f.a == l.a && f.r == l.r && f.g == l.g && f.b == l.b
        },
{
    let n = frames.len();
    let l = frames.last();
    assert(frames.last() == frames[n - 1]);
    assert(frames[0].time < frames[n - 1].time);
    assert(looped_time(frames, loop_, t) == l.time * 1000);
    lemma_frame_from_end(frames, 0);
    let a = frames[n - 2];
    assert(a.time < l.time);
    let ta = a.time * 1000;
    let tb = l.time * 1000;
    lemma_lerp_at_end(a.x as int, l.x as int, ta, tb);
    lemma_lerp_at_end(a.y as int, l.y as int, ta, tb);
    lemma_lerp_at_end(a.w as int, l.w as int, ta, tb);
    lemma_lerp_at_end(a.h as int, l.h as int, ta, tb);
    lemma_lerp_at_end(a.a as int, l.a as int, ta, tb);
    lemma_lerp_at_end(a.r as int, l.r as int, ta, tb);
    lemma_lerp_at_end(a.g as int, l.g as int, ta, tb);
    lemma_lerp_at_end(a.b as int, l.b as int, ta, tb);
}

/// A destination whose option condition fails is not drawn: an option id
/// `o > 0` that is not selected, or `o <= 0` whose negation is selected.
pub proof fn lemma_failing_option_hides(
    d: Destination,
    op_map: Seq<(i64, bool)>,
    judge_object: bool,
    pops: Seq<u8>,
    timers: Seq<i64>,
    scene_us: int,
    k: int,
)
    requires
        0 <= k < d.op@.len(),
        if d.op@[k] > 0 {
            !first_flag(op_map, d.op@[k])
        } else {
            first_flag(op_map, (-d.op@[k]) as i64)
        },
    ensures
        draw_frame_spec(d, op_map, judge_object, pops, timers, scene_us) is None,
{
}

/// A destination on a timer (in the table) that is off is not drawn.
pub proof fn lemma_timer_off_hides(
    d: Destination,
    op_map: Seq<(i64, bool)>,
    judge_object: bool,
    pops: Seq<u8>,
    timers: Seq<i64>,
    scene_us: int,
)
    requires
        d.timer matches Some(id) && 0 <= id < 256 && timers[id as int] == TIMER_OFF,
    ensures
        draw_frame_spec(d, op_map, judge_object, pops, timers, scene_us) is None,
{
}


proof fn lemma_mul_succ(a: int, b: int)
    ensures
        (a + 1) * b == a * b + b,
        b * (a + 1) == a * b + b,
        a * b == b * a,
{
    assert((a + 1) * b == a * b + b && b * (a + 1) == a * b + b && a * b == b * a) by (nonlinear_arith);
}

/// Animation frames run along the rows of the grid: frame 0 is the crop's
/// top-left cell; the next frame is the cell to the right in the same row,
/// or, after the last cell of a row, the first cell of the row below.
pub proof fn lemma_frames_run_along_rows(img: ImageDef, src_size: Option<(u32, u32)>, f: nat)
    requires
        img.divx > 0,
        img.divy > 0,
        f + 1 < img.divx * img.divy,
    ensures
        frame_uv_spec(img, 0, src_size).min_x == as_u32(img.x),
        frame_uv_spec(img, 0, src_size).min_y == as_u32(img.y),
        ((f + 1) as int) % (img.divx as int) != 0 ==> {
            &&& frame_uv_spec(img, f + 1, src_size).min_x == frame_uv_spec(img, f, src_size).max_x
            &&& frame_uv_spec(img, f + 1, src_size).min_y == frame_uv_spec(img, f, src_size).min_y
        },
        ((f + 1) as int) % (img.divx as int) == 0 ==> {
            &&& frame_uv_spec(img, f + 1, src_size).min_x == frame_uv_spec(img, 0, src_size).min_x
            &&& frame_uv_spec(img, f + 1, src_size).min_y == frame_uv_spec(img, f, src_size).max_y
        },
{
    let d = img.divx as int;
    let q = (f as int) / d;
    let r = (f as int) % d;
    lemma_fundamental_div_mod(f as int, d);
    lemma_mod_pos_bound(f as int, d);
    assert(0 <= 0int / d && 0int / d == 0 && 0int % d == 0) by {
        lemma_fundamental_div_mod_converse(0, d, 0, 0);
    }
    assert(img.divx * img.divy >= 1) by (nonlinear_arith)
        requires
            img.divx > 0,
            img.divy > 0,
    ;
    let (iw, ih) = crop_size(img, src_size);
    let cw = if iw / d >= 1 { iw / d } else { 1 };
    let ch = if ih / (img.divy as int) >= 1 { ih / (img.divy as int) } else { 1 };
    if r + 1 < d {
        lemma_fundamental_div_mod_converse((f + 1) as int, d, q, r + 1);
        lemma_mul_succ(r, cw);
    } else {
        lemma_mul_succ(q, d);
        lemma_fundamental_div_mod_converse((f + 1) as int, d, q + 1, 0);
        lemma_mul_succ(q, ch);
    }
    assert(as_u32(img.x) < 0x1_0000_0000);
    assert(as_u32(img.y) < 0x1_0000_0000);
}
} // verus!
