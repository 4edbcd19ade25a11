use hyprgram::chunks::{plan_chunks, plan_chunks_for_threads, plan_spectrogram, ChunkPlan};
use hyprgram::dsp::{
    default_cqt_bpo, normalize_hop_size, output_bands, prepare_settings, BandAggregation,
    FftSettings, Transform, Weighting, WindowFunction, DEFAULT_FFT_HOP_SAMPLES,
    DEFAULT_FFT_WINDOW_SAMPLES,
};
use hyprgram::error::CoreError;
use hyprgram::framing::StftFramer;

#[test]
fn hop_clamps_high() {
    assert_eq!(normalize_hop_size(16384, 32768), 16384);
}

#[test]
fn hop_zero_is_half_window() {
    assert_eq!(normalize_hop_size(16384, 0), 8192);
}

#[test]
fn hop_one_to_window_preserved() {
    assert_eq!(normalize_hop_size(100, 50), 50);
}

#[test]
fn hop_edge_cases() {
    assert_eq!(normalize_hop_size(0, 7), 1);
    assert_eq!(normalize_hop_size(1, 0), 1);
    assert_eq!(normalize_hop_size(3, 0), 1);
    assert_eq!(normalize_hop_size(5, 5), 5);
    assert_eq!(normalize_hop_size(5, 6), 5);
}

#[test]
fn hop_normalization_is_stable() {
    for w in 0..40usize {
        for h in 0..50usize {
            let once = normalize_hop_size(w, h);
            assert_eq!(normalize_hop_size(w, once), once);
        }
    }
}

#[test]
fn defaults_match_documented_values() {
    let d = FftSettings::default();
    assert_eq!(d.window_size, 20480);
    assert_eq!(d.hop_size, 256);
    assert_eq!(d.sample_rate, 48000);
    assert_eq!(d.log_bins, 256);
    assert_eq!(d.window_fn, WindowFunction::Hann);
    assert_eq!(d.band_aggregation, BandAggregation::Nearest);
    assert_eq!(d.weighting, Weighting::Z);
    assert_eq!(d.transform, Transform::Stft);
    assert_eq!(d.cqt_bins_per_octave, 12);
    assert_eq!(default_cqt_bpo(), 12);
    assert_eq!(DEFAULT_FFT_WINDOW_SAMPLES, 20480);
    assert_eq!(DEFAULT_FFT_HOP_SAMPLES, 256);
    assert_eq!(WindowFunction::default(), WindowFunction::Hann);
}

#[test]
fn small_window_is_refused() {
    let s = FftSettings { window_size: 7, ..FftSettings::default() };
    match prepare_settings(s) {
        Err(CoreError::Dsp(m)) => assert_eq!(m, "window_size too small"),
        Ok(_) => panic!("accepted a 7-sample window"),
    }
}

#[test]
fn prepare_normalizes_hop() {
    let s = FftSettings { window_size: 8, hop_size: 0, ..FftSettings::default() };
    let p = prepare_settings(s).unwrap();
    assert_eq!(p.hop_size, 4);
    assert_eq!(p.window_size, 8);
    let s = FftSettings { window_size: 4096, hop_size: 10000, ..FftSettings::default() };
    assert_eq!(prepare_settings(s).unwrap().hop_size, 4096);
}

#[test]
fn output_band_count() {
    let stft = FftSettings { log_bins: 300, ..FftSettings::default() };
    assert_eq!(output_bands(&stft, 77), 300);
    let cqt = FftSettings { transform: Transform::Cqt, ..stft };
    assert_eq!(output_bands(&cqt, 77), 77);
    assert_eq!(output_bands(&cqt, 0), 1);
}

#[test]
fn framer_emits_overlapping_frames() {
    let mut f: StftFramer<u32> = StftFramer::new(4, 2);
    f.extend(&[0, 1, 2, 3, 4, 5, 6]);
    let frames = f.drain_frames();
    assert_eq!(frames, vec![vec![0, 1, 2, 3], vec![2, 3, 4, 5]]);
    assert_eq!(f.pending_len(), 3);
    f.extend(&[7]);
    assert_eq!(f.drain_frames(), vec![vec![4, 5, 6, 7]]);
    assert_eq!(f.pending_len(), 2);
}

#[test]
fn framer_in_pieces_equals_at_once() {
    let stream: Vec<u32> = (0..97).collect();
    let mut whole: StftFramer<u32> = StftFramer::new(10, 3);
    whole.extend(&stream);
    let all = whole.drain_frames();
    let mut pieces: StftFramer<u32> = StftFramer::new(10, 3);
    let mut got = Vec::new();
    for chunk in stream.chunks(7) {
        pieces.extend(chunk);
        got.extend(pieces.drain_frames());
    }
    assert_eq!(all.len(), (97 - 10) / 3 + 1);
    assert_eq!(got, all);
    assert_eq!(pieces.pending_len(), whole.pending_len());
}

#[test]
fn framer_current_and_advance() {
    let mut f: StftFramer<u8> = StftFramer::new(3, 3);
    f.extend(&[9, 8]);
    assert_eq!(f.current_frame(), None);
    f.extend(&[7, 6]);
    assert_eq!(f.current_frame(), Some(vec![9, 8, 7]));
    f.advance();
    assert_eq!(f.pending_len(), 1);
    assert_eq!(f.current_frame(), None);
    assert_eq!(f.window_size(), 3);
    assert_eq!(f.hop_size(), 3);
}

#[test]
fn chunk_plan_for_threads() {
    // 25 samples, window 4, hop 3: windows start at 0,3,...,21 (8 windows).
    let plan = plan_chunks_for_threads(25, 4, 3, 3);
    assert_eq!(
        plan,
        vec![
            ChunkPlan { first_window: 0, end_window: 3, sample_start: 0, sample_end: 10 },
            ChunkPlan { first_window: 3, end_window: 6, sample_start: 9, sample_end: 19 },
            ChunkPlan { first_window: 6, end_window: 8, sample_start: 18, sample_end: 25 },
        ]
    );
}

#[test]
fn chunk_plan_more_threads_than_windows() {
    let plan = plan_chunks_for_threads(10, 10, 5, 64);
    assert_eq!(plan, vec![ChunkPlan { first_window: 0, end_window: 1, sample_start: 0, sample_end: 10 }]);
    let plan = plan_chunks_for_threads(12, 10, 1, 64);
    assert_eq!(plan.len(), 3);
    assert_eq!(plan[2], ChunkPlan { first_window: 2, end_window: 3, sample_start: 2, sample_end: 12 });
}

#[test]
fn chunk_frames_concatenate_to_whole() {
    let stream: Vec<u32> = (0..1000).collect();
    let (w, h) = (64usize, 16usize);
    let mut whole: StftFramer<u32> = StftFramer::new(w, h);
    whole.extend(&stream);
    let all = whole.drain_frames();
    for threads in 1..9 {
        let plan = plan_chunks_for_threads(stream.len(), w, h, threads);
        let mut got = Vec::new();
        for c in &plan {
            let mut f: StftFramer<u32> = StftFramer::new(w, h);
            f.extend(&stream[c.sample_start..c.sample_end]);
            let frames = f.drain_frames();
            assert_eq!(frames.len(), c.end_window - c.first_window);
            got.extend(frames);
        }
        assert_eq!(got, all);
    }
    let plan = plan_chunks(stream.len(), w, h);
    assert_eq!(plan.first().unwrap().first_window, 0);
    assert_eq!(plan.last().unwrap().end_window, all.len());
}

#[test]
fn chunk_plan_normalizes_hop() {
    // Hop 0 means half a window: 20 samples, window 8, hop 4 -> 4 frames.
    let plan = plan_chunks_for_threads(20, 8, 0, 1);
    assert_eq!(plan, vec![ChunkPlan { first_window: 0, end_window: 4, sample_start: 0, sample_end: 20 }]);
    // A hop longer than the window is a whole window.
    let plan = plan_chunks_for_threads(20, 8, 100, 1);
    assert_eq!(plan, vec![ChunkPlan { first_window: 0, end_window: 2, sample_start: 0, sample_end: 16 }]);
}

#[test]
fn chunk_plan_short_recording() {
    let plan = plan_chunks_for_threads(5, 8, 2, 4);
    assert_eq!(plan, vec![ChunkPlan { first_window: 0, end_window: 0, sample_start: 0, sample_end: 5 }]);
}

#[test]
fn spectrogram_plan_checks_window() {
    let small = FftSettings { window_size: 4, ..FftSettings::default() };
    match plan_spectrogram(100, small) {
        Err(CoreError::Dsp(m)) => assert_eq!(m, "window_size too small"),
        Ok(p) => panic!("planned {p:?}"),
    }
    let s = FftSettings { window_size: 8, hop_size: 0, ..FftSettings::default() };
    let plan = plan_spectrogram(1000, s).unwrap();
    let windows: usize = plan.iter().map(|c| c.end_window - c.first_window).sum();
    assert_eq!(windows, (1000 - 8) / 4 + 1);
}

#[test]
fn hop_zero_runs_match_sequential_frames() {
    let stream: Vec<u32> = (0..333).collect();
    let mut whole: StftFramer<u32> = StftFramer::new(16, normalize_hop_size(16, 0));
    whole.extend(&stream);
    let all = whole.drain_frames();
    let mut got = Vec::new();
    for c in plan_chunks_for_threads(stream.len(), 16, 0, 5) {
        let mut f: StftFramer<u32> = StftFramer::new(16, 8);
        f.extend(&stream[c.sample_start..c.sample_end]);
        got.extend(f.drain_frames());
    }
    assert_eq!(got, all);
}
