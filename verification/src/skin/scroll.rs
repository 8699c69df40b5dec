//! Scroll distance of notes: how far a note is from the playback position
//! once scroll-speed changes are weighed in.
//!
//! Positions are millionths of a measure; scroll speeds are thousandths
//! (1000 = normal speed); a distance is their product summed over the
//! stretch between the two positions.

use vstd::prelude::*;

verus! {

/// Scrolled distance from `cur` up to `hi`, walking the timeline `tl` of
/// (position, scroll) changes in order with `scroll` in force: a change at
/// or before the current position only sets the scroll; the first change
/// at or past `hi` ends the walk; a change in between closes a stretch.
pub open spec fn scroll_walk(tl: Seq<(i64, i64)>, cur: int, hi: int, scroll: int) -> int
    decreases tl.len(),
{
    if tl.len() == 0 {
        (hi - cur) * scroll
    } else if tl[0].0 <= cur {
        scroll_walk(tl.drop_first(), cur, hi, tl[0].1 as int)
    } else if tl[0].0 >= hi {
        (hi - cur) * scroll
    } else {
        (tl[0].0 - cur) * scroll + scroll_walk(tl.drop_first(), tl[0].0 as int, hi, tl[0].1 as int)
    }
}

/// Scrolled distance from the playback position `now` to a note at `note`
/// (scroll 1000 before the first change); negative for a note behind.
pub open spec fn scroll_distance_spec(now: int, note: int, tl: Seq<(i64, i64)>) -> int {
    if note >= now {
        scroll_walk(tl, now, note, 1000)
    } else {
        -scroll_walk(tl, note, now, 1000)
    }
}

/// Positions and scrolls small enough for exact arithmetic (|x| < 2^50).
pub open spec fn scroll_bounded(now: i64, note: i64, tl: Seq<(i64, i64)>) -> bool {
    &&& -0x4_0000_0000_0000 < now < 0x4_0000_0000_0000
    &&& -0x4_0000_0000_0000 < note < 0x4_0000_0000_0000
    &&& forall|k: int| 0 <= k < tl.len() ==> -0x4_0000_0000_0000 < (#[trigger] tl[k]).0 < 0x4_0000_0000_0000
        && -0x4_0000_0000_0000 < tl[k].1 < 0x4_0000_0000_0000
}

proof fn lemma_step_bound(d: int, s: int)
    requires
        0 <= d <= 0x10_0000_0000_0000,
        -0x4_0000_0000_0000 <= s <= 0x4_0000_0000_0000,
    ensures
        -0x4_0000_0000_0000 * d <= d * s <= 0x4_0000_0000_0000 * d,
{
    assert(-0x4_0000_0000_0000 * d <= d * s <= 0x4_0000_0000_0000 * d) by (nonlinear_arith)
        requires
            0 <= d,
            -0x4_0000_0000_0000 <= s <= 0x4_0000_0000_0000,
    ;
}

/// The walk from `lo` to `hi` over the timeline, computed.
fn walk(tl: &Vec<(i64, i64)>, lo: i64, hi: i64) -> (px: i128)
    requires
        lo <= hi,
        scroll_bounded(lo, hi, tl@),
    ensures
        px == scroll_walk(tl@, lo as int, hi as int, 1000),
        -0x4_0000_0000_0000 * (hi - lo) <= px <= 0x4_0000_0000_0000 * (hi - lo),
{
    let mut px: i128 = 0;
    let mut cur: i64 = lo;
    let mut scroll: i64 = 1000;
    let mut i: usize = 0;
    proof {
        assert(tl@.skip(0) =~= tl@);
    }
    while i < tl.len()
        invariant
            0 <= i <= tl@.len(),
            lo <= cur <= hi,
            scroll_bounded(lo, hi, tl@),
            -0x4_0000_0000_0000 < scroll < 0x4_0000_0000_0000,
            -0x4_0000_0000_0000 * (cur - lo) <= px <= 0x4_0000_0000_0000 * (cur - lo),
            px + scroll_walk(tl@.skip(i as int), cur as int, hi as int, scroll as int) == scroll_walk(tl@, lo as int, hi as int, 1000),
        decreases tl.len() - i,
    {
        let (m, s) = tl[i];
        proof {
            assert(tl@.skip(i as int).drop_first() =~= tl@.skip(i + 1));
            assert(tl@.skip(i as int)[0] == tl@[i as int]);
        }
        if m <= cur {
            scroll = s;
        } else if m >= hi {
            proof {
                lemma_step_bound((hi - cur) as int, scroll as int);
                assert(tl@.skip(i as int).len() > 0);
            }
            let last: i128 = ((hi as i128) - (cur as i128)) * (scroll as i128);
            return px + last;
        } else {
            proof {
                lemma_step_bound((m - cur) as int, scroll as int);
            }
            let step: i128 = ((m as i128) - (cur as i128)) * (scroll as i128);
            px = px + step;
            cur = m;
            scroll = s;
        }
        i = i + 1;
    }
    proof {
        lemma_step_bound((hi - cur) as int, scroll as int);
        assert(tl@.skip(i as int).len() == 0);
    }
    let last: i128 = ((hi as i128) - (cur as i128)) * (scroll as i128);
    px + last
}

/// Scrolled distance from the playback position `now` to a note at `note`
/// (see [`scroll_distance_spec`]).
pub fn scroll_distance(now: i64, note: i64, tl: &Vec<(i64, i64)>) -> (d: i128)
    requires
        scroll_bounded(now, note, tl@),
    ensures
        d == scroll_distance_spec(now as int, note as int, tl@),
{
    if note >= now {
        walk(tl, now, note)
    } else {
        let w = walk(tl, note, now);
        0 - w
    }
}

/// A note at the playback position is at distance zero, and swapping the
/// two positions flips the sign.
pub proof fn lemma_distance_antisymmetric(a: int, b: int, tl: Seq<(i64, i64)>)
    ensures
        scroll_distance_spec(a, a, tl) == 0,
        a != b ==> scroll_distance_spec(a, b, tl) == -scroll_distance_spec(b, a, tl),
{
    lemma_walk_empty(tl, a, 1000);
}

proof fn lemma_walk_empty(tl: Seq<(i64, i64)>, cur: int, scroll: int)
    ensures
        scroll_walk(tl, cur, cur, scroll) == 0,
    decreases tl.len(),
{
    if tl.len() > 0 && tl[0].0 <= cur {
        lemma_walk_empty(tl.drop_first(), cur, tl[0].1 as int);
    }
}

/// With a single scroll change at or before the playback position, a note
/// ahead is at its gap times that scroll.
pub proof fn lemma_distance_constant_scroll(now: int, note: int, at: i64, s: i64)
    requires
        at <= now <= note,
    ensures
        scroll_distance_spec(now, note, seq![(at, s)]) == (note - now) * s,
{
    let tl = seq![(at, s)];
    assert(tl.drop_first() =~= Seq::<(i64, i64)>::empty());
    assert(scroll_walk(tl, now, note, 1000) == scroll_walk(tl.drop_first(), now, note, s as int));
    assert(scroll_walk(Seq::<(i64, i64)>::empty(), now, note, s as int) == (note - now) * s);
}

} // verus!
