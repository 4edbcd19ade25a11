//! Splitting the frames of a long recording into runs that are analysed in
//! parallel, one fresh processor per run.
use vstd::prelude::*;
use crate::dsp::{law_normalized_hop_is_stable, normalize_hop_size, prepare_settings, spec_normalized_hop, FftSettings, MIN_WINDOW_SAMPLES};
use crate::error::CoreError;
use crate::framing::{frame_count, lemma_frame_count_bounds, lemma_frame_count_from_bounds, stft_frames, lemma_div_bounds, lemma_div_unique, lemma_mul_mono, lemma_mul_succ};

verus! {

/// One run of consecutive frames: windows `first_window..end_window`, read
/// from samples `sample_start..sample_end`.
#[derive(Clone, Copy, Debug, PartialEq, Eq, Structural)]
pub struct ChunkPlan {
    pub first_window: usize,
    pub end_window: usize,
    pub sample_start: usize,
    pub sample_end: usize,
}

/// Number of frames of a recording of `n >= w` samples.
pub open spec fn num_windows(n: int, w: int, h: int) -> int {
    (n - w) / h + 1
}

/// Frames per run when `threads` runs share `nw` frames (rounded up).
pub open spec fn windows_per_chunk(nw: int, threads: int) -> int {
    (nw + threads - 1) / threads
}

/// Number of runs of `c` frames (the last may be shorter) that cover `nw`.
pub open spec fn chunk_count(nw: int, c: int) -> int {
    (nw + c - 1) / c
}

pub open spec fn min_int(a: int, b: int) -> int {
    if a <= b { a } else { b }
}

/// Run `i` of the plan for `n` samples, window `w`, hop `h`, `c` frames per run.
pub open spec fn spec_chunk(n: int, w: int, h: int, c: int, i: int) -> ChunkPlan {
    let nw = num_windows(n, w, h);
    let first = i * c;
    let end = min_int(first + c, nw);
    ChunkPlan {
        first_window: first as usize,
        end_window: end as usize,
        sample_start: (first * h) as usize,
        sample_end: min_int((end - 1) * h + w, n) as usize,
    }
}

/// The whole plan when the pool has `threads` threads.
pub open spec fn spec_plan(n: int, w: int, h: int, threads: int) -> Seq<ChunkPlan> {
    let nw = num_windows(n, w, h);
    let c = windows_per_chunk(nw, threads);
    Seq::new(chunk_count(nw, c) as nat, |i: int| spec_chunk(n, w, h, c, i))
}

proof fn lemma_windows_facts(n: int, w: int, h: int)
    requires
        0 <= w <= n,
        1 <= h,
    ensures
        1 <= num_windows(n, w, h) <= n - w + 1,
        (num_windows(n, w, h) - 1) * h + w <= n,
{
    lemma_div_bounds(n - w, h);
    let q = (n - w) / h;
    assert(q <= q * h) by (nonlinear_arith)
        requires
            q >= 0,
            h >= 1,
    ;
}

proof fn lemma_ceil_div_facts(x: int, d: int)
    requires
        x >= 1,
        d >= 1,
    ensures
        (x + d - 1) / d >= 1,
        ((x + d - 1) / d - 1) * d < x <= ((x + d - 1) / d) * d,
{
    lemma_div_bounds(x + d - 1, d);
    let q = (x + d - 1) / d;
    lemma_mul_succ(q, d);
    lemma_mul_succ(q - 1, d);
    if q < 1 {
        lemma_mul_mono(q, 0, d);
        assert(false);
    }
}

/// The runs for a pool of `threads` threads and a hop `h` in `1..`:
/// `num_windows` frames are cut into runs of `ceil(num_windows / threads)`
/// frames; each run reads the samples from its first frame's start to its
/// last frame's end.
fn plan_runs(n: usize, w: usize, h: usize, threads: usize) -> (r: Vec<ChunkPlan>)
    requires
        w <= n <= usize::MAX / 2,
        1 <= h,
        1 <= threads,
    ensures
        r@ == spec_plan(n as int, w as int, h as int, threads as int),
{
    proof {
        lemma_windows_facts(n as int, w as int, h as int);
    }
    let nw = (n - w) / h + 1;
    let ghost c0 = windows_per_chunk(nw as int, threads as int);
    let t = if threads > nw { nw } else { threads };
    assert(t <= nw);
    assert(nw + t - 1 <= usize::MAX);
    let c = (nw - 1 + t) / t;
    proof {
        lemma_div_bounds((nw + t - 1) as int, t as int);
        lemma_ceil_div_facts(nw as int, t as int);
        let q = (nw + t - 1) / t as int;
        assert(q <= nw) by (nonlinear_arith)
            requires
                q * t <= nw + t - 1,
                t >= 1,
                nw >= 1,
        ;
        if threads > nw {
            lemma_div_unique(nw + threads - 1, 1, threads as int);
            lemma_div_unique(nw + t - 1, 1, t as int);
        }
        assert(c == c0);
        lemma_ceil_div_facts(nw as int, c as int);
    }
    let ghost count = chunk_count(nw as int, c as int);
    let mut out: Vec<ChunkPlan> = Vec::new();
    let mut start: usize = 0;
    let ghost mut i: int = 0;
    while start < nw
        invariant
            nw == num_windows(n as int, w as int, h as int),
            1 <= nw <= n - w + 1,
            (nw - 1) * h + w <= n,
            n <= usize::MAX / 2,
            1 <= c <= nw,
            (count - 1) * c < nw <= count * c,
            0 <= i <= count,
            i < count ==> start == i * c,
            i < count ==> start < nw,
            i == count ==> start >= nw,
            out@.len() == i,
            forall|j: int| #![trigger out@[j]] 0 <= j < i ==> out@[j] == spec_chunk(n as int, w as int, h as int, c as int, j),
        decreases count - i,
    {
        let end = if start + c < nw { start + c } else { nw };
        proof {
            lemma_mul_mono(end - 1, nw - 1, h as int);
            lemma_mul_mono(start as int, nw - 1, h as int);
        }
        let last_end = (end - 1) * h + w;
        let sample_end = if last_end < n { last_end } else { n };
        out.push(ChunkPlan {
            first_window: start,
            end_window: end,
            sample_start: start * h,
            sample_end,
        });
        proof {
            lemma_mul_succ(i, c as int);
            if i + 1 < count {
                lemma_mul_mono(i + 1, count - 1, c as int);
            } else {
                assert(i + 1 == count);
            }
            assert(out@[i] == spec_chunk(n as int, w as int, h as int, c as int, i));
            i = i + 1;
        }
        start = if start + c < nw { start + c } else { nw };
        proof {
            if start == nw && i < count {
                lemma_mul_mono(i, count - 1, c as int);
            }
        }
    }
    proof {
        assert(out@ =~= spec_plan(n as int, w as int, h as int, threads as int));
    }
    out
}

/// Number of threads in the current rayon pool.
///
/// Calls `rayon::current_num_threads`. Nothing is promised of the result: it
/// depends on the machine and on how the pool was configured.
#[verifier::external_body]
fn pool_thread_count() -> (r: usize) {
    rayon::current_num_threads()
}

/// The plan for `n` samples, window `w` and requested hop `hop` (normalized
/// as the processor does: 0 means half a window, more than a window means a
/// window). A recording shorter than one window is one run over all its
/// samples, holding no frame.
pub open spec fn spec_run_plan(n: int, w: int, hop: int, threads: int) -> Seq<ChunkPlan> {
    if n < w {
        seq![ChunkPlan { first_window: 0, end_window: 0, sample_start: 0, sample_end: n as usize }]
    } else {
        spec_plan(n, w, spec_normalized_hop(w, hop), threads)
    }
}

/// Plans the runs for a pool of `threads` threads.
pub fn plan_chunks_for_threads(n: usize, w: usize, hop: usize, threads: usize) -> (r: Vec<ChunkPlan>)
    requires
        n <= usize::MAX / 2,
        1 <= threads,
    ensures
        r@ == spec_run_plan(n as int, w as int, hop as int, threads as int),
{
    if n < w {
        let mut v: Vec<ChunkPlan> = Vec::new();
        v.push(ChunkPlan { first_window: 0, end_window: 0, sample_start: 0, sample_end: n });
        proof {
            assert(v@ =~= spec_run_plan(n as int, w as int, hop as int, threads as int));
        }
        return v;
    }
    let h = normalize_hop_size(w, hop);
    plan_runs(n, w, h, threads)
}

/// Plans the parallel runs for the current rayon pool (at least one thread
/// is assumed, whatever the pool reports).
pub fn plan_chunks(n: usize, w: usize, hop: usize) -> (r: Vec<ChunkPlan>)
    requires
        n <= usize::MAX / 2,
    ensures
        exists|threads: int| 1 <= threads && r@ == spec_run_plan(n as int, w as int, hop as int, threads),
{
    let reported = pool_thread_count();
    let threads = if reported >= 1 { reported } else { 1 };
    plan_chunks_for_threads(n, w, hop, threads)
}

/// Checks the settings of an offline analysis and plans its runs: a window
/// shorter than eight samples is refused (as a processor would refuse it);
/// otherwise the runs cover the recording with the settings' hop, normalized.
pub fn plan_spectrogram(n: usize, settings: FftSettings) -> (r: Result<Vec<ChunkPlan>, CoreError>)
    requires
        n <= usize::MAX / 2,
    ensures
        settings.window_size < MIN_WINDOW_SAMPLES <==> r is Err,
        r matches Err(CoreError::Dsp(m)) ==> m@ == "window_size too small"@,
        r matches Ok(plan) ==> exists|threads: int|
            1 <= threads && plan@ == spec_run_plan(n as int, settings.window_size as int, settings.hop_size as int, threads),
{
    match prepare_settings(settings) {
        Err(e) => Err(e),
        Ok(s) => {
            proof {
                law_normalized_hop_is_stable(settings.window_size as int, settings.hop_size as int);
            }
            let plan = plan_chunks(n, s.window_size, s.hop_size);
            proof {
                let t = choose|t: int| 1 <= t && plan@ == spec_run_plan(n as int, s.window_size as int, s.hop_size as int, t);
                assert(spec_run_plan(n as int, s.window_size as int, s.hop_size as int, t)
                    == spec_run_plan(n as int, settings.window_size as int, settings.hop_size as int, t));
            }
            Ok(plan)
        },
    }
}

/// The runs of a plan cover the frames in order and without gaps: the first
/// starts at frame 0, each ends where the next begins, none is empty, and
/// the last ends at the last frame.
pub proof fn law_chunks_tile_frames(n: int, w: int, h: int, threads: int)
    requires
        0 <= w <= n <= usize::MAX / 2,
        1 <= h,
        1 <= threads,
    ensures
        ({
            let p = spec_plan(n, w, h, threads);
            &&& p.len() >= 1
            &&& p[0].first_window == 0
            &&& p[p.len() - 1].end_window == num_windows(n, w, h)
            &&& forall|i: int| #![trigger p[i]] 0 <= i < p.len() ==> p[i].first_window < p[i].end_window
            &&& forall|i: int| #![trigger p[i]] 0 <= i < p.len() - 1 ==> p[i].end_window == p[i + 1].first_window
        }),
{
    let p = spec_plan(n, w, h, threads);
    let nw = num_windows(n, w, h);
    lemma_windows_facts(n, w, h);
    lemma_ceil_div_facts(nw, threads);
    let c = windows_per_chunk(nw, threads);
    lemma_ceil_div_facts(nw, c);
    let count = chunk_count(nw, c);
    assert(0 * c == 0) by (nonlinear_arith);
    assert forall|i: int| #![trigger p[i]] 0 <= i < p.len() implies p[i].first_window < p[i].end_window by {
        lemma_mul_mono(i, count - 1, c);
        lemma_mul_mono(0, i, c);
    }
    assert forall|i: int| #![trigger p[i]] 0 <= i < p.len() - 1 implies p[i].end_window == p[i + 1].first_window by {
        lemma_mul_succ(i, c);
        lemma_mul_mono(i + 1, count - 1, c);
        lemma_mul_mono(0, i, c);
    }
    lemma_mul_succ(count - 1, c);
    lemma_mul_mono(0, count - 1, c);
}

/// A run, analysed on its own, yields exactly the frames of the whole
/// recording at the run's windows (for a hop inside `1..=w`, which is what
/// the processor uses).
pub proof fn law_chunk_frames_match<T>(s: Seq<T>, w: int, h: int, threads: int, i: int)
    requires
        1 <= h <= w <= s.len() <= usize::MAX / 2,
        1 <= threads,
        0 <= i < spec_plan(s.len() as int, w, h, threads).len(),
    ensures
        ({
            let ch = spec_plan(s.len() as int, w, h, threads)[i];
            stft_frames(s.subrange(ch.sample_start as int, ch.sample_end as int), w, h)
                == stft_frames(s, w, h).subrange(ch.first_window as int, ch.end_window as int)
        }),
{
    let n = s.len() as int;
    let nw = num_windows(n, w, h);
    lemma_windows_facts(n, w, h);
    lemma_ceil_div_facts(nw, threads);
    let c = windows_per_chunk(nw, threads);
    lemma_ceil_div_facts(nw, c);
    let count = chunk_count(nw, c);
    let ch = spec_plan(n, w, h, threads)[i];
    let first = i * c;
    let end = ch.end_window as int;
    lemma_mul_mono(i, count - 1, c);
    lemma_mul_mono(0, i, c);
    assert(0 <= first < end <= nw);
    lemma_mul_mono(end - 1, nw - 1, h);
    assert(ch.sample_end == (end - 1) * h + w);
    lemma_mul_mono(first, nw - 1, h);
    lemma_mul_mono(0, first, h);
    assert(ch.sample_start == first * h);
    let sub = s.subrange(first * h, (end - 1) * h + w);
    let k = end - first;
    assert((end - 1) * h == (k - 1) * h + first * h) by (nonlinear_arith)
        requires
            k == end - first,
    ;
    lemma_mul_mono(0, first, h);
    lemma_mul_succ(k - 1, h);
    lemma_frame_count_from_bounds(sub.len() as int, w, h, k);
    lemma_frame_count_bounds(n, w, h);
    assert(frame_count(n, w, h) == nw);
    let lhs = stft_frames(sub, w, h);
    let rhs = stft_frames(s, w, h).subrange(first, end);
    assert forall|j: int| 0 <= j < lhs.len() implies lhs[j] == rhs[j] by {
        assert((first + j) * h == first * h + j * h) by (nonlinear_arith);
        lemma_mul_mono(j, k - 1, h);
        lemma_mul_mono(0, j, h);
        assert(lhs[j] =~= rhs[j]);
    }
    assert(lhs =~= rhs);
}

/// The frames of the first `i` runs of a plan, each run analysed on its own,
/// one after the other.
pub open spec fn frames_of_runs<T>(s: Seq<T>, w: int, h: int, plan: Seq<ChunkPlan>, i: int) -> Seq<Seq<T>>
    decreases i,
{
    if i <= 0 {
        Seq::empty()
    } else {
        frames_of_runs(s, w, h, plan, i - 1) + stft_frames(
            s.subrange(plan[i - 1].sample_start as int, plan[i - 1].sample_end as int),
            w,
            h,
        )
    }
}

proof fn lemma_runs_prefix<T>(s: Seq<T>, w: int, h: int, threads: int, i: int)
    requires
        1 <= h <= w <= s.len() <= usize::MAX / 2,
        1 <= threads,
        1 <= i <= spec_plan(s.len() as int, w, h, threads).len(),
    ensures
        ({
            let plan = spec_plan(s.len() as int, w, h, threads);
            frames_of_runs(s, w, h, plan, i) == stft_frames(s, w, h).subrange(0, plan[i - 1].end_window as int)
        }),
    decreases i,
{
    let n = s.len() as int;
    let plan = spec_plan(n, w, h, threads);
    let all = stft_frames(s, w, h);
    law_chunks_tile_frames(n, w, h, threads);
    lemma_frame_count_bounds(n, w, h);
    law_chunk_frames_match(s, w, h, threads, i - 1);
    let ch = plan[i - 1];
    if i == 1 {
        assert(frames_of_runs(s, w, h, plan, 0) =~= Seq::<Seq<T>>::empty());
        assert(frames_of_runs(s, w, h, plan, 1) =~= all.subrange(0, ch.end_window as int));
    } else {
        lemma_runs_prefix(s, w, h, threads, i - 1);
        assert(plan[i - 2].end_window == ch.first_window);
        assert(frames_of_runs(s, w, h, plan, i) =~= all.subrange(0, ch.end_window as int));
    }
}

/// Analysing the runs of a plan separately and putting their frames one
/// after the other gives exactly the frames of the whole recording: the
/// parallel analysis sees the same windows as a sequential one. Stated for a
/// hop in `1..=w`, which is what planning uses after normalizing.
pub proof fn law_runs_give_all_frames<T>(s: Seq<T>, w: int, h: int, threads: int)
    requires
        1 <= h <= w <= s.len() <= usize::MAX / 2,
        1 <= threads,
    ensures
        ({
            let plan = spec_plan(s.len() as int, w, h, threads);
            frames_of_runs(s, w, h, plan, plan.len() as int) == stft_frames(s, w, h)
        }),
{
    let n = s.len() as int;
    let plan = spec_plan(n, w, h, threads);
    let all = stft_frames(s, w, h);
    law_chunks_tile_frames(n, w, h, threads);
    lemma_frame_count_bounds(n, w, h);
    lemma_windows_facts(n, w, h);
    lemma_runs_prefix(s, w, h, threads, plan.len() as int);
    assert(all.subrange(0, all.len() as int) =~= all);
}

/// Whatever hop is asked for, and whether or not the recording holds a whole
/// window, the planned runs together yield exactly the recording's frames at
/// the normalized hop.
pub proof fn law_planned_runs_give_all_frames<T>(s: Seq<T>, w: int, hop: int, threads: int)
    requires
        1 <= w,
        0 <= hop,
        s.len() <= usize::MAX / 2,
        1 <= threads,
    ensures
        ({
            let h = spec_normalized_hop(w, hop);
            let plan = spec_run_plan(s.len() as int, w, hop, threads);
            frames_of_runs(s, w, h, plan, plan.len() as int) == stft_frames(s, w, h)
        }),
{
    let h = spec_normalized_hop(w, hop);
    law_normalized_hop_is_stable(w, hop);
    let n = s.len() as int;
    let plan = spec_run_plan(n, w, hop, threads);
    if n < w {
        assert(frames_of_runs(s, w, h, plan, 0) =~= Seq::<Seq<T>>::empty());
        assert(s.subrange(0, n) =~= s);
        assert(frames_of_runs(s, w, h, plan, 1) =~= stft_frames(s, w, h));
    } else {
        law_runs_give_all_frames(s, w, h, threads);
    }
}

} // verus!
