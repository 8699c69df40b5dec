//! Background animation (BGA) event cursor: which image or video is shown
//! as play time advances.

use vstd::prelude::*;

verus! {

/// A base-layer BGA event: at `time_us` (µs of play time) show `bmp_id`.
#[derive(Debug, Clone, Copy, PartialEq, Eq, Structural)]
pub struct BgaEvent {
    pub time_us: i64,
    pub bmp_id: usize,
}

/// Position in the event list and the image shown.
#[derive(Debug, Clone, Copy, PartialEq, Eq, Structural)]
pub struct BgaCursor {
    /// Index of the next event to fire.
    pub next_idx: usize,
    /// The image shown (`None`: nothing yet).
    pub current: Option<usize>,
}

/// The image id an event is compared with: the shown one, or `usize::MAX`
/// when nothing is shown.
pub open spec fn shown_id(current: Option<usize>) -> usize {
    match current {
        Some(c) => c,
        None => usize::MAX,
    }
}

/// Firing events `from..to` starting from `current`: the images switched
/// to, in order (an event naming the image already shown switches nothing),
/// and the image shown after them.
pub open spec fn fire_spec(events: Seq<BgaEvent>, from: int, to: int, current: Option<usize>) -> (Seq<usize>, Option<usize>)
    decreases to - from,
{
    if to <= from {
        (Seq::empty(), current)
    } else {
        let (sw, cur) = fire_spec(events, from, to - 1, current);
        let id = events[to - 1].bmp_id;
        if id != shown_id(cur) {
            (sw.push(id), Some(id))
        } else {
            (sw, cur)
        }
    }
}

impl BgaCursor {
    /// Before the first event, nothing shown.
    pub fn new() -> (c: Self)
        ensures
            c == (BgaCursor { next_idx: 0, current: None }),
    {
        BgaCursor { next_idx: 0, current: None }
    }

    /// Fires every pending event due by `now_us` (in order, stopping at the
    /// first later one) and returns the images to switch to, in order.
    pub fn advance(&mut self, events: &Vec<BgaEvent>, now_us: i64) -> (switches: Vec<usize>)
        requires
            old(self).next_idx <= events@.len(),
        ensures
            old(self).next_idx <= final(self).next_idx <= events@.len(),
            forall|i: int| old(self).next_idx <= i < final(self).next_idx ==> events@[i].time_us <= now_us,
            final(self).next_idx < events@.len() ==> events@[final(self).next_idx as int].time_us > now_us,
            (switches@, final(self).current) == fire_spec(events@, old(self).next_idx as int, final(self).next_idx as int, old(self).current),
    {
        let start = self.next_idx;
        let mut out: Vec<usize> = Vec::new();
        while self.next_idx < events.len() && events[self.next_idx].time_us <= now_us
            invariant
                start <= self.next_idx <= events@.len(),
                start == old(self).next_idx,
                forall|i: int| start <= i < self.next_idx ==> events@[i].time_us <= now_us,
                (out@, self.current) == fire_spec(events@, start as int, self.next_idx as int, old(self).current),
            decreases events.len() - self.next_idx,
        {
            let ev = events[self.next_idx];
            let shown = match self.current {
                Some(c) => c,
                None => usize::MAX,
            };
            self.next_idx = self.next_idx + 1;
            if ev.bmp_id != shown {
                out.push(ev.bmp_id);
                self.current = Some(ev.bmp_id);
            }
        }
        out
    }
}

/// After advancing, the image shown is the last image switched to (or the
/// one shown before when nothing switched).
pub proof fn lemma_current_is_last_switch(events: Seq<BgaEvent>, from: int, to: int, current: Option<usize>)
    ensures
        ({
            let (sw, cur) = fire_spec(events, from, to, current);
            if sw.len() > 0 { cur == Some(sw.last()) } else { cur == current }
        }),
    decreases to - from,
{
    if to > from {
        lemma_current_is_last_switch(events, from, to - 1, current);
    }
}

/// Two consecutive switches never name the same image.
pub proof fn lemma_switches_change_image(events: Seq<BgaEvent>, from: int, to: int, current: Option<usize>)
    ensures
        ({
            let sw = fire_spec(events, from, to, current).0;
            &&& forall|i: int| 0 < i < sw.len() ==> #[trigger] sw[i] != sw[i - 1]
            &&& sw.len() > 0 ==> sw[0] != shown_id(current)
        }),
    decreases to - from,
{
    if to > from {
        lemma_switches_change_image(events, from, to - 1, current);
        lemma_current_is_last_switch(events, from, to - 1, current);
    }
}

} // verus!
