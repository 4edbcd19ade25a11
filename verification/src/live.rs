//! Bookkeeping of the live view: how many analysed columns may wait for the
//! display, which texture row each new column goes to, and how a column is
//! fitted to the texture width.
use vstd::prelude::*;
use std::collections::VecDeque;
use crate::ring::SampleRing;

verus! {

/// Capacity of the capture ring: two seconds of audio, twice the sample
/// rate (in samples).
pub fn capture_ring_capacity(sample_rate: u32) -> (r: usize)
    requires
        2 * sample_rate <= usize::MAX,
    ensures
        r == 2 * sample_rate,
{
    (sample_rate as usize) * 2
}

/// The empty capture ring for audio at `sample_rate` samples a second.
pub fn capture_ring(sample_rate: u32) -> (r: SampleRing)
    requires
        1 <= sample_rate,
        2 * sample_rate <= usize::MAX,
    ensures
        r@ == Seq::<u32>::empty(),
        r.capacity() == 2 * sample_rate,
{
    SampleRing::new(capture_ring_capacity(sample_rate))
}

/// Most columns that may wait for display with `history` rows shown: eight
/// times the history plus 256 (saturating), and at least 1024.
pub open spec fn spec_backlog_capacity(history: u32) -> int {
    let scaled = if history * 8 > usize::MAX { usize::MAX as int } else { history * 8 };
    let padded = if scaled + 256 > usize::MAX { usize::MAX as int } else { scaled + 256 };
    if padded >= 1024 { padded } else { 1024 }
}

/// Most columns that may wait for display.
pub fn backlog_capacity(history: u32) -> (r: usize)
    ensures
        r == spec_backlog_capacity(history),
        r >= 1024,
{
    let h = history as usize;
    let scaled = if h > usize::MAX / 8 { usize::MAX } else { h * 8 };
    let padded = if scaled > usize::MAX - 256 { usize::MAX } else { scaled + 256 };
    if padded >= 1024 { padded } else { 1024 }
}

/// The backlog bound is eight columns per history row plus 256, at least
/// 1024, and the largest `usize` when that does not fit.
pub proof fn law_backlog_capacity(history: u32)
    ensures
        8 * history + 256 <= usize::MAX ==> spec_backlog_capacity(history) == (if 8 * history + 256 >= 1024 {
            8 * history + 256
        } else {
            1024
        }),
        8 * history + 256 > usize::MAX ==> spec_backlog_capacity(history) == usize::MAX,
        history <= 96 ==> spec_backlog_capacity(history) == 1024,
{
}

/// How many of the oldest entries make room for one more under `cap`.
pub open spec fn spec_evicted(len: nat, cap: nat) -> nat {
    if len >= cap { (len - cap + 1) as nat } else { 0 }
}

/// Queues a column for display, first dropping the oldest ones until fewer
/// than `cap` wait.
pub fn push_bounded<T>(queue: &mut VecDeque<T>, item: T, cap: usize)
    requires
        cap >= 1,
    ensures
        final(queue)@ == old(queue)@.subrange(spec_evicted(old(queue)@.len(), cap as nat) as int, old(queue)@.len() as int).push(item),
{
    let ghost start = old(queue)@;
    let ghost mut dropped: int = 0;
    while queue.len() >= cap
        invariant
            cap >= 1,
            0 <= dropped <= start.len(),
            queue@ == start.subrange(dropped, start.len() as int),
            dropped > 0 ==> start.len() - dropped + 1 >= cap,
            dropped == 0 || start.len() >= cap,
        decreases queue@.len(),
    {
        let _ = queue.pop_front();
        proof {
            dropped = dropped + 1;
        }
    }
    proof {
        if start.len() >= cap {
            assert(dropped == start.len() - cap + 1);
        } else {
            assert(dropped == 0);
        }
    }
    queue.push_back(item);
}

/// The display queue never holds more than its bound, ends with the newest
/// column, and keeps the newest ones: it is a suffix of the old queue with
/// the new column added.
pub proof fn law_bounded_queue<T>(q: Seq<T>, item: T, cap: nat)
    requires
        cap >= 1,
    ensures
        ({
            let r = q.subrange(spec_evicted(q.len(), cap) as int, q.len() as int).push(item);
            &&& r.len() <= cap
            &&& r.len() == (if q.len() + 1 <= cap { q.len() + 1 } else { cap })
            &&& r[r.len() - 1] == item
            &&& r == q.push(item).subrange(q.len() + 1 - r.len(), q.len() + 1int)
        }),
{
    let k = spec_evicted(q.len(), cap) as int;
    let r = q.subrange(k, q.len() as int).push(item);
    assert(r =~= q.push(item).subrange(q.len() + 1 - r.len(), q.len() + 1int));
}

/// Size of the texture that shows `bins` bands over `history` rows (each at
/// least one), or `None` when either side exceeds the device limit; the
/// frame is then skipped.
pub fn texture_dims(bins: u32, history: u32, limit: u32) -> (r: Option<(u32, u32)>)
    ensures
        ({
            let w = if bins >= 1 { bins } else { 1 };
            let h = if history >= 1 { history } else { 1 };
            r == if w > limit || h > limit { None } else { Some((w, h)) }
        }),
{
    let w = if bins >= 1 { bins } else { 1 };
    let h = if history >= 1 { history } else { 1 };
    if w > limit || h > limit { None } else { Some((w, h)) }
}

/// Counts the columns written into the history texture.
pub struct HistoryCursor {
    pub write_row: u32,
}

impl HistoryCursor {
    /// A cursor at row 0.
    pub fn new() -> (r: Self)
        ensures
            r.write_row == 0,
    {
        HistoryCursor { write_row: 0 }
    }

    /// Starts over at row 0, as after the texture was recreated.
    pub fn reset(&mut self)
        ensures
            final(self).write_row == 0,
    {
        self.write_row = 0;
    }

    /// The row that the next column goes to in a texture of `height` rows;
    /// the count then moves on by one, wrapping at 2^32.
    pub fn next_row(&mut self, height: u32) -> (y: u32)
        requires
            height >= 1,
        ensures
            y == old(self).write_row % height,
            y < height,
            final(self).write_row == (if old(self).write_row == u32::MAX { 0 } else { old(self).write_row + 1 }),
    {
        let y = self.write_row % height;
        self.write_row = self.write_row.wrapping_add(1);
        y
    }
}

/// A column fitted to `width` texels: its first `width` values, padded with
/// `fill` when it is shorter.
pub fn fit_row<T: Copy>(col: &[T], width: usize, fill: T) -> (r: Vec<T>)
    ensures
        r@.len() == width,
        forall|i: int| 0 <= i < width ==> #[trigger] r@[i] == if i < col@.len() { col@[i] } else { fill },
{
    let mut r: Vec<T> = Vec::new();
    let mut i: usize = 0;
    while i < width
        invariant
            i <= width,
            r@.len() == i,
            forall|k: int| 0 <= k < i ==> #[trigger] r@[k] == if k < col@.len() { col@[k] } else { fill },
        decreases width - i,
    {
        if i < col.len() {
            r.push(col[i]);
        } else {
            r.push(fill);
        }
        i = i + 1;
    }
    r
}

} // verus!
