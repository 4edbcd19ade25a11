//! A bounded FIFO of audio samples between the capture side and the DSP
//! side. Samples travel as the bit patterns of their `f32` values, so the
//! ring moves them without changing them; a multichannel frame is folded
//! into one sample by a mixing function that the caller supplies.
use vstd::prelude::*;
use vstd::slice::slice_subrange;
use ringbuf::storage::Heap;
use ringbuf::traits::{Consumer, Observer, Producer};
use ringbuf::SharedRb;

verus! {

/// A `ringbuf` heap ring of `u32` items (`SharedRb<Heap<u32>>`, alias
/// `HeapRb<u32>`), kept behind this holder: its contents and capacity are
/// known through `ring_items` and `ring_capacity`, and it is changed only by
/// the functions below.
#[verifier::external_body]
pub struct HeapRing {
    rb: SharedRb<Heap<u32>>,
}

/// The items that a ring buffer holds, oldest first.
pub uninterp spec fn ring_items(rb: HeapRing) -> Seq<u32>;

/// The number of items that a ring buffer was made to hold.
pub uninterp spec fn ring_capacity(rb: HeapRing) -> nat;

/// `SharedRb::<Heap<u32>>::new` (alias `HeapRb::new`): an empty ring of the
/// given capacity. The crate panics on capacity zero, which `requires` leaves
/// out.
#[verifier::external_body]
fn ring_new(capacity: usize) -> (rb: HeapRing)
    requires
        capacity >= 1,
    ensures
        ring_items(rb) == Seq::<u32>::empty(),
        ring_capacity(rb) == capacity,
{
    HeapRing { rb: SharedRb::<Heap<u32>>::new(capacity) }
}

/// `Producer::try_push`: appends the item when the ring is not full, and
/// otherwise hands it back in `Err` with the ring unchanged. It does not
/// panic (it only compares indices and writes one slot).
#[verifier::external_body]
fn ring_try_push(rb: &mut HeapRing, item: u32) -> (r: Result<(), u32>)
    ensures
        ring_capacity(*final(rb)) == ring_capacity(*old(rb)),
        r is Ok <==> ring_items(*old(rb)).len() < ring_capacity(*old(rb)),
        r is Ok ==> ring_items(*final(rb)) == ring_items(*old(rb)).push(item),
        r matches Err(x) ==> x == item && ring_items(*final(rb)) == ring_items(*old(rb)),
    no_unwind
{
    rb.rb.try_push(item)
}

/// `Consumer::pop_slice`: moves the oldest `min(held, dst.len())` items into
/// the front of `dst` and returns how many it moved; the rest of `dst` is
/// untouched. It does not panic (it copies within both slices' bounds).
#[verifier::external_body]
fn ring_pop_slice(rb: &mut HeapRing, dst: &mut [u32]) -> (n: usize)
    ensures
        n == (if ring_items(*old(rb)).len() <= old(dst)@.len() {
            ring_items(*old(rb)).len()
        } else {
            old(dst)@.len()
        }),
        final(dst)@ == ring_items(*old(rb)).subrange(0, n as int) + old(dst)@.subrange(n as int, old(dst)@.len() as int),
        ring_items(*final(rb)) == ring_items(*old(rb)).subrange(n as int, ring_items(*old(rb)).len() as int),
        ring_capacity(*final(rb)) == ring_capacity(*old(rb)),
    no_unwind
{
    rb.rb.pop_slice(dst)
}

/// `Observer::occupied_len`: how many items the ring holds.
#[verifier::external_body]
fn ring_occupied_len(rb: &HeapRing) -> (n: usize)
    ensures
        n == ring_items(*rb).len(),
{
    rb.rb.occupied_len()
}

pub open spec fn min_nat(a: nat, b: nat) -> nat {
    if a <= b { a } else { b }
}

/// Number of frames of `channels` samples (the last may be short) in `len`
/// interleaved samples.
pub open spec fn frame_total(len: nat, channels: nat) -> nat {
    if channels == 0 { 0 } else { ((len + channels - 1) / channels as int) as nat }
}

/// Samples of interleaved frame `i`.
pub open spec fn interleaved_frame(samples: Seq<u32>, channels: nat, i: int) -> Seq<u32> {
    let start = i * channels;
    let end = if start + channels <= samples.len() { start + channels } else { samples.len() as int };
    samples.subrange(start, end)
}

/// `v` is a value that `mix` may return for frame `i` of the interleaved
/// samples.
pub open spec fn frame_mixed_into<F: Fn(&[u32]) -> u32>(mix: F, samples: Seq<u32>, channels: nat, i: int, v: u32) -> bool {
    exists|c: &[u32]| c@ == interleaved_frame(samples, channels, i) && #[trigger] call_ensures(mix, (c,), v)
}

/// Ring contents after one-channel samples were pushed until full.
pub open spec fn spec_after_push(items: Seq<u32>, capacity: nat, samples: Seq<u32>) -> Seq<u32> {
    items + samples.subrange(0, min_nat(samples.len(), (capacity - items.len()) as nat) as int)
}

/// How many samples a pop into a buffer of `dst_len` places moves.
pub open spec fn spec_pop_count(items: Seq<u32>, dst_len: nat) -> nat {
    min_nat(items.len(), dst_len)
}

/// Samples come out of the ring in the order they went in: pushing into a
/// ring that holds `items` and then popping into a buffer that can take the
/// whole capacity yields `items` followed by every pushed sample that found
/// room, and leaves the ring empty. Nothing is lost unless the ring was full.
pub proof fn law_ring_first_in_first_out(items: Seq<u32>, capacity: nat, samples: Seq<u32>, dst_len: nat)
    requires
        items.len() <= capacity,
        dst_len >= capacity,
    ensures
        ({
            let after = spec_after_push(items, capacity, samples);
            let k = spec_pop_count(after, dst_len);
            &&& after.len() <= capacity
            &&& k == after.len()
            &&& after.subrange(0, k as int) == after
            &&& after.subrange(k as int, after.len() as int) == Seq::<u32>::empty()
            &&& after.subrange(0, items.len() as int) == items
            &&& (samples.len() + items.len() <= capacity ==> after == items + samples)
        }),
{
    let after = spec_after_push(items, capacity, samples);
    assert(after.subrange(0, after.len() as int) =~= after);
    assert(after.subrange(after.len() as int, after.len() as int) =~= Seq::<u32>::empty());
    assert(after.subrange(0, items.len() as int) =~= items);
    if samples.len() + items.len() <= capacity {
        assert(samples.subrange(0, samples.len() as int) =~= samples);
    }
}

/// A bounded sample FIFO.
pub struct SampleRing {
    rb: HeapRing,
}

impl View for SampleRing {
    type V = Seq<u32>;

    /// The samples waiting in the ring, oldest first.
    closed spec fn view(&self) -> Seq<u32> {
        ring_items(self.rb)
    }
}

impl SampleRing {
    #[verifier::type_invariant]
    closed spec fn inv(self) -> bool {
        &&& ring_items(self.rb).len() <= ring_capacity(self.rb)
        &&& ring_capacity(self.rb) >= 1
    }

    /// How many samples the ring can hold.
    pub closed spec fn capacity(&self) -> nat {
        ring_capacity(self.rb)
    }

    /// Free places left in the ring.
    pub open spec fn vacant(&self) -> nat {
        (self.capacity() - self@.len()) as nat
    }

    /// An empty ring that holds up to `capacity` samples.
    pub fn new(capacity: usize) -> (r: Self)
        requires
            capacity >= 1,
        ensures
            r@ == Seq::<u32>::empty(),
            r.capacity() == capacity,
    {
        SampleRing { rb: ring_new(capacity) }
    }

    /// Appends samples until the ring is full; returns how many went in.
    fn push_mono(&mut self, samples: &[u32]) -> (n: usize)
        ensures
            n == min_nat(samples@.len(), old(self).vacant()),
            final(self)@ == old(self)@ + samples@.subrange(0, n as int),
            final(self).capacity() == old(self).capacity(),
    {
        proof {
            use_type_invariant(&*self);
        }
        let mut n: usize = 0;
        while n < samples.len()
            invariant
                n <= samples@.len(),
                n <= old(self).vacant(),
                self.capacity() == old(self).capacity(),
                self@ == old(self)@ + samples@.subrange(0, n as int),
                self@.len() <= self.capacity(),
                self.capacity() >= 1,
            ensures
                n == min_nat(samples@.len(), old(self).vacant()),
                self.capacity() == old(self).capacity(),
                self@ == old(self)@ + samples@.subrange(0, n as int),
            decreases samples@.len() - n,
        {
            match ring_try_push(&mut self.rb, samples[n]) {
                Ok(()) => {},
                Err(_) => {
                    break;
                },
            }
            proof {
                assert(samples@.subrange(0, n + 1) =~= samples@.subrange(0, n as int).push(samples@[n as int]));
            }
            n = n + 1;
        }
        n
    }

    /// Adds interleaved audio with `channels` samples per frame. With one
    /// channel the samples go in as they are; with more, each frame (the last
    /// one may be short) is folded into one sample by `mix`. Frames go in
    /// until the ring is full; the result is how many went in. With zero
    /// channels nothing happens.
    pub fn push_interleaved<F: Fn(&[u32]) -> u32>(&mut self, samples: &[u32], channels: usize, mix: F) -> (n: usize)
        requires
            forall|c: &[u32]| #[trigger] call_requires(mix, (c,)),
        ensures
            final(self).capacity() == old(self).capacity(),
            n == min_nat(frame_total(samples@.len(), channels as nat), old(self).vacant()),
            channels == 1 ==> final(self)@ == spec_after_push(old(self)@, old(self).capacity(), samples@),
            channels != 1 ==> final(self)@.len() == old(self)@.len() + n,
            channels != 1 ==> final(self)@.subrange(0, old(self)@.len() as int) == old(self)@,
            channels >= 2 ==> forall|i: int|
                0 <= i < n ==> frame_mixed_into(mix, samples@, channels as nat, i,
                    #[trigger] final(self)@.skip(old(self)@.len() as int)[i]),
    {
        proof {
            use_type_invariant(&*self);
        }
        if channels == 0 {
            assert(old(self)@.subrange(0, old(self)@.len() as int) =~= old(self)@);
            return 0;
        }
        if channels == 1 {
            let n = self.push_mono(samples);
            proof {
                assert(frame_total(samples@.len(), 1) == samples@.len()) by {
                    assert((samples@.len() + 1 - 1) / 1int == samples@.len());
                }
            }
            return n;
        }
        let len = samples.len();
        let ghost base = old(self)@.len();
        let mut n: usize = 0;
        let mut start: usize = 0;
        proof {
            crate::framing::lemma_div_bounds(len + channels - 1, channels as int);
            if len == 0 {
                crate::framing::lemma_div_unique(channels - 1, 0, channels as int);
            } else {
                let q = (len + channels - 1) / channels as int;
                if q < 1 {
                    crate::framing::lemma_mul_mono(q, 0, channels as int);
                }
            }
            assert(0 * channels == 0);
            assert(old(self)@.subrange(0, base as int) =~= old(self)@);
        }
        loop
            invariant
                channels >= 2,
                len == samples@.len(),
                start <= len,
                n <= start,
                start == n * channels || start == len,
                start == len ==> n == frame_total(len as nat, channels as nat),
                start < len ==> n < frame_total(len as nat, channels as nat),
                start < len ==> start == n * channels,
                n <= old(self).vacant(),
                self.capacity() == old(self).capacity(),
                self@.len() == base + n,
                self@.len() <= self.capacity(),
                self.capacity() >= 1,
                self@.subrange(0, base as int) == old(self)@,
                forall|i: int|
                    0 <= i < n ==> frame_mixed_into(mix, samples@, channels as nat, i,
                        #[trigger] self@.skip(base as int)[i]),
                forall|c: &[u32]| #[trigger] call_requires(mix, (c,)),
            ensures
                n == min_nat(frame_total(samples@.len(), channels as nat), old(self).vacant()),
                self.capacity() == old(self).capacity(),
                self@.len() == base + n,
                self@.subrange(0, base as int) == old(self)@,
                forall|i: int|
                    0 <= i < n ==> frame_mixed_into(mix, samples@, channels as nat, i,
                        #[trigger] self@.skip(base as int)[i]),
            decreases len - start,
        {
            if start >= len {
                break;
            }
            let end = if len - start > channels { start + channels } else { len };
            let chunk = slice_subrange(samples, start, end);
            let m = mix(chunk);
            let ghost before = self@;
            match ring_try_push(&mut self.rb, m) {
                Ok(()) => {},
                Err(_) => {
                    break;
                },
            }
            proof {
                assert(chunk@ == interleaved_frame(samples@, channels as nat, n as int));
                assert(self@ == before.push(m));
                assert forall|i: int| 0 <= i < n + 1 implies frame_mixed_into(mix, samples@, channels as nat, i,
                    #[trigger] self@.skip(base as int)[i]) by {
                    if i < n {
                        assert(self@.skip(base as int)[i] == before.skip(base as int)[i]);
                    } else {
                        assert(self@.skip(base as int)[i] == m);
                        assert(call_ensures(mix, (chunk,), m));
                    }
                }
                assert(self@.subrange(0, base as int) =~= before.subrange(0, base as int));
                crate::framing::lemma_mul_succ(n as int, channels as int);
                let ft = frame_total(len as nat, channels as nat);
                crate::framing::lemma_div_bounds(len + channels - 1, channels as int);
                crate::framing::lemma_mul_succ(ft as int, channels as int);
                if end < len {
                    if n + 1 >= ft {
                        crate::framing::lemma_mul_mono(ft as int, n + 1, channels as int);
                    }
                } else {
                    if n + 1 < ft {
                        crate::framing::lemma_mul_mono(n + 1, ft - 1, channels as int);
                        crate::framing::lemma_mul_succ(ft - 1, channels as int);
                    }
                    if n + 1 > ft {
                        crate::framing::lemma_mul_mono(ft as int, n as int, channels as int);
                    }
                }
            }
            n = n + 1;
            start = end;
        }
        n
    }

    /// Moves the oldest samples into the front of `dst`, as many as fit and
    /// are held; returns how many it moved.
    pub fn pop_into(&mut self, dst: &mut [u32]) -> (n: usize)
        ensures
            n == spec_pop_count(old(self)@, old(dst)@.len()),
            final(dst)@ == old(self)@.subrange(0, n as int) + old(dst)@.subrange(n as int, old(dst)@.len() as int),
            final(self)@ == old(self)@.subrange(n as int, old(self)@.len() as int),
            final(self).capacity() == old(self).capacity(),
    {
        proof {
            use_type_invariant(&*self);
        }
        ring_pop_slice(&mut self.rb, dst)
    }

    /// How many samples are waiting.
    pub fn available(&self) -> (n: usize)
        ensures
            n == self@.len(),
    {
        ring_occupied_len(&self.rb)
    }
}

} // verus!
