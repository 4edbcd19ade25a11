//! Cutting a sample stream into overlapping STFT frames.
//!
//! Frame `j` of a stream `s` with window `w` and hop `h` is
//! `s[j*h .. j*h + w]`; a stream of length `n >= w` holds `(n - w) / h + 1`
//! whole frames. The framer keeps the samples that no emitted frame has
//! consumed yet, so that feeding a stream in pieces yields the same frames as
//! feeding it at once.
use vstd::prelude::*;

verus! {

/// Number of whole frames in a stream of `len` samples.
pub open spec fn frame_count(len: int, w: int, h: int) -> int {
    if len >= w && h > 0 {
        (len - w) / h + 1
    } else {
        0
    }
}

/// The frames of a stream, in order.
pub open spec fn stft_frames<T>(s: Seq<T>, w: int, h: int) -> Seq<Seq<T>> {
    Seq::new(frame_count(s.len() as int, w, h) as nat, |j: int| s.subrange(j * h, j * h + w))
}

/// What remains buffered after every whole frame of `s` has been emitted.
pub open spec fn stft_leftover<T>(s: Seq<T>, w: int, h: int) -> Seq<T> {
    s.subrange(frame_count(s.len() as int, w, h) * h, s.len() as int)
}

pub proof fn lemma_div_unique(x: int, q: int, h: int)
    requires
        h > 0,
        q * h <= x < q * h + h,
    ensures
        x / h == q,
{
    assert(x / h == q) by (nonlinear_arith)
        requires
            h > 0,
            q * h <= x < q * h + h,
    ;
}

pub proof fn lemma_div_bounds(x: int, h: int)
    requires
        h > 0,
        x >= 0,
    ensures
        (x / h) * h <= x < (x / h) * h + h,
        x / h >= 0,
{
    assert((x / h) * h <= x < (x / h) * h + h && x / h >= 0) by (nonlinear_arith)
        requires
            h > 0,
            x >= 0,
    ;
}

pub proof fn lemma_mul_succ(k: int, h: int)
    ensures
        (k + 1) * h == k * h + h,
        (k - 1) * h == k * h - h,
{
    assert((k + 1) * h == k * h + h && (k - 1) * h == k * h - h) by (nonlinear_arith);
}

pub proof fn lemma_mul_mono(a: int, b: int, h: int)
    requires
        a <= b,
        h >= 0,
    ensures
        a * h <= b * h,
{
    assert(a * h <= b * h) by (nonlinear_arith)
        requires
            a <= b,
            h >= 0,
    ;
}

/// With `k` frames in a stream of `len` samples, the last frame ends inside
/// the stream and one more frame would not fit.
pub proof fn lemma_frame_count_bounds(len: int, w: int, h: int)
    requires
        1 <= h,
        0 <= len,
    ensures
        frame_count(len, w, h) >= 0,
        frame_count(len, w, h) >= 1 ==> (frame_count(len, w, h) - 1) * h + w <= len,
        len < frame_count(len, w, h) * h + w,
{
    let k = frame_count(len, w, h);
    if len >= w {
        lemma_div_bounds(len - w, h);
        lemma_mul_succ((len - w) / h, h);
    } else {
        assert(k * h == 0) by (nonlinear_arith)
            requires
                k == 0,
        ;
    }
}

/// The frame count is determined by where the last frame starts.
pub proof fn lemma_frame_count_from_bounds(len: int, w: int, h: int, k: int)
    requires
        1 <= h,
        k >= 1,
        (k - 1) * h + w <= len,
        len < k * h + w,
    ensures
        frame_count(len, w, h) == k,
{
    lemma_mul_succ(k - 1, h);
    lemma_mul_mono(0, k - 1, h);
    lemma_div_unique(len - w, k - 1, h);
}

/// Feeding a stream in two pieces gives the frames of the whole stream: the
/// frames of the first piece, then those of its leftover followed by the
/// second piece; and the same samples are left over at the end.
pub proof fn law_frames_of_concatenation<T>(a: Seq<T>, b: Seq<T>, w: int, h: int)
    requires
        1 <= h <= w,
    ensures
        stft_frames(a + b, w, h) == stft_frames(a, w, h) + stft_frames(stft_leftover(a, w, h) + b, w, h),
        stft_leftover(a + b, w, h) == stft_leftover(stft_leftover(a, w, h) + b, w, h),
{
    let s = a + b;
    let k = frame_count(a.len() as int, w, h);
    let t = stft_leftover(a, w, h) + b;
    lemma_frame_count_bounds(a.len() as int, w, h);
    if k >= 1 {
        lemma_mul_succ(k, h);
    } else {
        assert(k * h == 0) by (nonlinear_arith)
            requires
                k == 0,
        ;
    }
    assert(k * h <= a.len());
    assert(t =~= s.subrange(k * h, s.len() as int));
    let m = frame_count(t.len() as int, w, h);
    lemma_frame_count_bounds(t.len() as int, w, h);
    assert(m * h + k * h == (k + m) * h) by (nonlinear_arith);
    if t.len() >= w {
        assert((k + m - 1) * h == (m - 1) * h + k * h) by (nonlinear_arith);
        lemma_frame_count_from_bounds(s.len() as int, w, h, k + m);
    } else {
        assert(m == 0);
        if k >= 1 {
            lemma_frame_count_from_bounds(s.len() as int, w, h, k);
        }
    }
    assert(frame_count(s.len() as int, w, h) == k + m);
    let lhs = stft_frames(s, w, h);
    let rhs = stft_frames(a, w, h) + stft_frames(t, w, h);
    assert forall|j: int| 0 <= j < lhs.len() implies lhs[j] == rhs[j] by {
        if j < k {
            lemma_mul_mono(j, k - 1, h);
            assert(lhs[j] =~= rhs[j]);
        } else {
            let i = j - k;
            assert(j * h == k * h + i * h) by (nonlinear_arith)
                requires
                    i == j - k,
            ;
            lemma_mul_mono(i, m - 1, h);
            lemma_mul_mono(0, i, h);
            assert(lhs[j] =~= rhs[j]);
        }
    }
    assert(lhs =~= rhs);
    if m >= 1 {
        lemma_mul_succ(m, h);
    } else {
        assert(m * h == 0) by (nonlinear_arith)
            requires
                m == 0,
        ;
    }
    assert(m * h <= t.len());
    assert((k + m) * h <= s.len());
    let ls = stft_leftover(s, w, h);
    let lt = stft_leftover(t, w, h);
    assert(ls == s.subrange((k + m) * h, s.len() as int));
    assert(lt == t.subrange(m * h, t.len() as int));
    assert(ls.len() == lt.len());
    assert forall|i: int| 0 <= i < ls.len() implies ls[i] == lt[i] by {
        assert(ls[i] == s[(k + m) * h + i]);
        assert(lt[i] == t[m * h + i]);
        assert(t[m * h + i] == s[k * h + (m * h + i)]);
    }
    assert(ls =~= lt);
}

/// The first `k` pieces of a stream, joined.
pub open spec fn joined<T>(pieces: Seq<Seq<T>>, k: int) -> Seq<T>
    decreases k,
{
    if k <= 0 {
        Seq::empty()
    } else {
        joined(pieces, k - 1) + pieces[k - 1]
    }
}

/// The frames emitted, and the samples left pending, after the first `k`
/// pieces were fed to a fresh framer one by one, each followed by emitting
/// every whole frame (`extend` then `drain_frames`).
pub open spec fn fed_frames<T>(pieces: Seq<Seq<T>>, k: int, w: int, h: int) -> (Seq<Seq<T>>, Seq<T>)
    decreases k,
{
    if k <= 0 {
        (Seq::empty(), Seq::empty())
    } else {
        let (frames, left) = fed_frames(pieces, k - 1, w, h);
        let buf = left + pieces[k - 1];
        (frames + stft_frames(buf, w, h), stft_leftover(buf, w, h))
    }
}

/// However a stream is split into pieces, feeding the pieces one after the
/// other yields the frames of the whole stream, `(n - w) / h + 1` of them for
/// `n >= w` samples in all and none before `w` samples have arrived, and
/// leaves the same samples pending.
pub proof fn law_frames_of_pieces<T>(pieces: Seq<Seq<T>>, k: int, w: int, h: int)
    requires
        1 <= h <= w,
        0 <= k <= pieces.len(),
    ensures
        fed_frames(pieces, k, w, h).0 == stft_frames(joined(pieces, k), w, h),
        fed_frames(pieces, k, w, h).1 == stft_leftover(joined(pieces, k), w, h),
        fed_frames(pieces, k, w, h).0.len() == frame_count(joined(pieces, k).len() as int, w, h),
    decreases k,
{
    if k > 0 {
        law_frames_of_pieces(pieces, k - 1, w, h);
        law_frames_of_concatenation(joined(pieces, k - 1), pieces[k - 1], w, h);
    } else {
        let e = Seq::<T>::empty();
        assert(stft_frames(e, w, h) =~= Seq::<Seq<T>>::empty());
        assert(stft_leftover(e, w, h) =~= e);
    }
    lemma_frame_count_bounds(joined(pieces, k).len() as int, w, h);
}

/// Pending samples of a stream, with the window and hop that frame them.
/// The buffer keeps consumed samples before `start` until the next extend.
pub struct StftFramer<T> {
    buf: Vec<T>,
    start: usize,
    window_size: usize,
    hop_size: usize,
}

impl<T> View for StftFramer<T> {
    type V = Seq<T>;

    /// The samples that are waiting to be framed.
    closed spec fn view(&self) -> Seq<T> {
        self.buf@.subrange(self.start as int, self.buf@.len() as int)
    }
}

impl<T> StftFramer<T> {
    #[verifier::type_invariant]
    closed spec fn inv(self) -> bool {
        &&& self.start <= self.buf@.len()
        &&& 1 <= self.hop_size <= self.window_size
    }
}

impl<T: Copy> StftFramer<T> {
    /// Frame length in samples.
    pub closed spec fn spec_window(&self) -> nat {
        self.window_size as nat
    }

    /// Distance between the starts of consecutive frames.
    pub closed spec fn spec_hop(&self) -> nat {
        self.hop_size as nat
    }

    /// A framer with nothing pending. The hop must lie in `1..=window_size`
    /// (see `normalize_hop_size`).
    pub fn new(window_size: usize, hop_size: usize) -> (r: Self)
        requires
            1 <= hop_size <= window_size,
        ensures
            r@ == Seq::<T>::empty(),
            r.spec_window() == window_size,
            r.spec_hop() == hop_size,
    {
        let r = StftFramer { buf: Vec::new(), start: 0, window_size, hop_size };
        assert(r@ =~= Seq::<T>::empty());
        r
    }

    pub fn window_size(&self) -> (r: usize)
        ensures
            r == self.spec_window(),
    {
        self.window_size
    }

    pub fn hop_size(&self) -> (r: usize)
        ensures
            r == self.spec_hop(),
    {
        self.hop_size
    }

    /// Number of pending samples.
    pub fn pending_len(&self) -> (r: usize)
        ensures
            r == self@.len(),
    {
        proof {
            use_type_invariant(self);
        }
        self.buf.len() - self.start
    }

    /// Appends incoming samples after the pending ones.
    pub fn extend(&mut self, incoming: &[T])
        ensures
            final(self)@ == old(self)@ + incoming@,
            final(self).spec_window() == old(self).spec_window(),
            final(self).spec_hop() == old(self).spec_hop(),
    {
        proof {
            use_type_invariant(&*self);
        }
        let mut next: Vec<T> = Vec::new();
        let mut i: usize = self.start;
        while i < self.buf.len()
            invariant
                self.start <= i <= self.buf@.len(),
                next@ == self.buf@.subrange(self.start as int, i as int),
            decreases self.buf@.len() - i,
        {
            next.push(self.buf[i]);
            proof {
                assert(next@ =~= self.buf@.subrange(self.start as int, i + 1));
            }
            i = i + 1;
        }
        let mut j: usize = 0;
        while j < incoming.len()
            invariant
                0 <= j <= incoming@.len(),
                next@ == self.buf@.subrange(self.start as int, self.buf@.len() as int)
                    + incoming@.subrange(0, j as int),
            decreases incoming@.len() - j,
        {
            next.push(incoming[j]);
            proof {
                assert(next@ =~= self.buf@.subrange(self.start as int, self.buf@.len() as int)
                    + incoming@.subrange(0, j + 1));
            }
            j = j + 1;
        }
        proof {
            assert(incoming@.subrange(0, incoming@.len() as int) =~= incoming@);
        }
        self.start = 0;
        self.buf = next;
        proof {
            assert(self@ =~= self.buf@);
        }
    }

    /// The first `window_size` pending samples, when that many are pending.
    pub fn current_frame(&self) -> (r: Option<Vec<T>>)
        ensures
            r is Some <==> self@.len() >= self.spec_window(),
            r matches Some(f) ==> f@ == self@.subrange(0, self.spec_window() as int),
    {
        proof {
            use_type_invariant(self);
        }
        if self.buf.len() - self.start < self.window_size {
            return None;
        }
        let mut f: Vec<T> = Vec::new();
        let mut i: usize = 0;
        while i < self.window_size
            invariant
                i <= self.window_size,
                self.start + self.window_size <= self.buf@.len() <= usize::MAX,
                f@ == self.buf@.subrange(self.start as int, self.start + i),
            decreases self.window_size - i,
        {
            f.push(self.buf[self.start + i]);
            proof {
                assert(f@ =~= self.buf@.subrange(self.start as int, self.start + i + 1));
            }
            i = i + 1;
        }
        proof {
            assert(f@ =~= self@.subrange(0, self.spec_window() as int));
        }
        Some(f)
    }

    /// Drops the first `hop_size` pending samples, after a frame was used.
    pub fn advance(&mut self)
        requires
            old(self)@.len() >= old(self).spec_window(),
        ensures
            final(self)@ == old(self)@.subrange(old(self).spec_hop() as int, old(self)@.len() as int),
            final(self).spec_window() == old(self).spec_window(),
            final(self).spec_hop() == old(self).spec_hop(),
    {
        proof {
            use_type_invariant(&*self);
        }
        let len = self.buf.len();
        assert(self.start + self.hop_size <= len);
        self.start = self.start + self.hop_size;
        proof {
            assert(self@ =~= old(self)@.subrange(old(self).spec_hop() as int, old(self)@.len() as int));
        }
    }

    /// Emits every whole frame that the pending samples hold, in order, and
    /// keeps what is left for the next call.
    pub fn drain_frames(&mut self) -> (r: Vec<Vec<T>>)
        ensures
            r@.len() == stft_frames(old(self)@, old(self).spec_window() as int, old(self).spec_hop() as int).len(),
            forall|j: int|
                #![trigger r@[j]]
                0 <= j < r@.len() ==> r@[j]@ == stft_frames(
                    old(self)@,
                    old(self).spec_window() as int,
                    old(self).spec_hop() as int,
                )[j],
            final(self)@ == stft_leftover(old(self)@, old(self).spec_window() as int, old(self).spec_hop() as int),
            final(self).spec_window() == old(self).spec_window(),
            final(self).spec_hop() == old(self).spec_hop(),
    {
        proof {
            use_type_invariant(&*self);
        }
        let ghost s = self@;
        let ghost w = self.spec_window() as int;
        let ghost h = self.spec_hop() as int;
        let mut out: Vec<Vec<T>> = Vec::new();
        let ghost mut k: int = 0;
        loop
            invariant
                self.spec_window() == w,
                self.spec_hop() == h,
                1 <= h <= w,
                0 <= k,
                k * h <= s.len(),
                self@ == s.subrange(k * h, s.len() as int),
                k >= 1 ==> (k - 1) * h + w <= s.len(),
                out@.len() == k,
                forall|j: int| #![trigger out@[j]] 0 <= j < k ==> out@[j]@ == s.subrange(j * h, j * h + w),
            ensures
                self@.len() < w,
                self.spec_window() == w,
                self.spec_hop() == h,
                k * h <= s.len(),
                self@ == s.subrange(k * h, s.len() as int),
                k >= 1 ==> (k - 1) * h + w <= s.len(),
                out@.len() == k,
                forall|j: int| #![trigger out@[j]] 0 <= j < k ==> out@[j]@ == s.subrange(j * h, j * h + w),
            decreases self@.len(),
        {
            let f = match self.current_frame() {
                Some(f) => f,
                None => break,
            };
            proof {
                assert(f@ =~= s.subrange(k * h, k * h + w));
                lemma_mul_succ(k, h);
            }
            out.push(f);
            self.advance();
            proof {
                assert(self@ =~= s.subrange((k + 1) * h, s.len() as int));
                k = k + 1;
            }
        }
        proof {
            lemma_mul_succ(k, h);
            if k >= 1 {
                lemma_frame_count_from_bounds(s.len() as int, w, h, k);
            } else {
                assert(s.len() < w);
            }
            assert(frame_count(s.len() as int, w, h) == k);
        }
        out
    }
}

} // verus!
