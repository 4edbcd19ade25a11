//! Analysis settings that hold no floating-point values: hop policy,
//! window, weighting, transform and band choices, validation of a
//! configuration and the number of bands an analysis yields.
use vstd::prelude::*;
use vstd::string::*;
use crate::error::CoreError;

verus! {

/// Default real FFT length (samples) of the STFT window.
pub const DEFAULT_FFT_WINDOW_SAMPLES: usize = 20480;

/// Default hop between STFT frames (samples).
pub const DEFAULT_FFT_HOP_SAMPLES: usize = 256;

/// The hop that a configuration with window `w` and requested hop `h` uses:
/// `0` asks for half a window (at least one sample); anything else is kept
/// inside `1..=w`. A window shorter than one sample gets hop `1`.
pub open spec fn spec_normalized_hop(w: int, h: int) -> int {
    if w < 1 {
        1
    } else if h == 0 {
        if w / 2 >= 1 { w / 2 } else { 1 }
    } else if h > w {
        w
    } else {
        h
    }
}

/// STFT hop must satisfy `1 <= hop <= window_size`. `hop == 0` is treated as
/// "use half window" (50% overlap). Larger values are clamped to `window_size`.
pub fn normalize_hop_size(window_size: usize, hop: usize) -> (r: usize)
    ensures
        r == spec_normalized_hop(window_size as int, hop as int),
        1 <= r,
        window_size >= 1 ==> r <= window_size,
{
    if window_size < 1 {
        return 1;
    }
    let max_h = window_size;
    let h = if hop == 0 {
        let half = window_size / 2;
        if half >= 1 { half } else { 1 }
    } else {
        hop
    };
    if h > max_h { max_h } else { h }
}

/// Normalizing a hop twice changes nothing more: a normalized hop is kept.
/// For a window of at least one sample the hop lies in `1..=window_size`,
/// and a hop already in that range is kept as it is.
pub proof fn law_normalized_hop_is_stable(w: int, h: int)
    requires
        0 <= w,
        0 <= h,
    ensures
        spec_normalized_hop(w, spec_normalized_hop(w, h)) == spec_normalized_hop(w, h),
        w >= 1 ==> 1 <= spec_normalized_hop(w, h) <= w,
        1 <= h <= w ==> spec_normalized_hop(w, h) == h,
        w >= 2 ==> spec_normalized_hop(w, 0) == w / 2,
        w == 1 ==> spec_normalized_hop(w, 0) == 1,
        1 <= w < h ==> spec_normalized_hop(w, h) == w,
{
}


/// Window applied to each STFT frame before the FFT.
#[derive(Clone, Copy, Debug, Default, PartialEq, Eq, Structural)]
pub enum WindowFunction {
    #[default]
    Hann,
    Hamming,
    Blackman,
    BlackmanHarris,
}

/// Time-frequency transform: plain STFT or a constant-Q mapping of the STFT.
#[derive(Clone, Copy, Debug, Default, PartialEq, Eq, Structural)]
pub enum Transform {
    #[default]
    Stft,
    Cqt,
}

/// Frequency weighting curve applied to the magnitudes. `Z` is the flat
/// (zero) weighting, spelled `none` in profiles and commands.
#[derive(Clone, Copy, Debug, Default, PartialEq, Eq, Structural)]
pub enum Weighting {
    #[default]
    Z,
    A,
    C,
}

/// How FFT bins are gathered into one display band.
#[derive(Clone, Copy, Debug, Default, PartialEq, Eq, Structural)]
pub enum BandAggregation {
    #[default]
    Nearest,
    Triangular,
}

/// Default number of constant-Q bins per octave.
pub fn default_cqt_bpo() -> (r: u32)
    ensures
        r == 12,
{
    12
}


/// The integer and choice fields of a spectrum configuration: everything
/// that decides how samples are framed and how many bands come out.
#[derive(Clone, Copy, Debug, PartialEq, Eq, Structural)]
pub struct FftSettings {
    pub window_size: usize,
    pub hop_size: usize,
    pub sample_rate: u32,
    pub log_bins: usize,
    pub window_fn: WindowFunction,
    pub band_aggregation: BandAggregation,
    pub weighting: Weighting,
    pub transform: Transform,
    pub cqt_bins_per_octave: u32,
}

/// The settings of the default configuration.
pub open spec fn spec_default_settings() -> FftSettings {
    FftSettings {
        window_size: DEFAULT_FFT_WINDOW_SAMPLES,
        hop_size: DEFAULT_FFT_HOP_SAMPLES,
        sample_rate: 48000,
        log_bins: 256,
        window_fn: WindowFunction::Hann,
        band_aggregation: BandAggregation::Nearest,
        weighting: Weighting::Z,
        transform: Transform::Stft,
        cqt_bins_per_octave: 12,
    }
}

impl Default for FftSettings {
    fn default() -> (r: Self)
        ensures
            r == spec_default_settings(),
    {
        FftSettings {
            window_size: DEFAULT_FFT_WINDOW_SAMPLES,
            hop_size: DEFAULT_FFT_HOP_SAMPLES,
            sample_rate: 48000,
            log_bins: 256,
            window_fn: WindowFunction::Hann,
            band_aggregation: BandAggregation::Nearest,
            weighting: Weighting::Z,
            transform: Transform::Stft,
            cqt_bins_per_octave: default_cqt_bpo(),
        }
    }
}

/// Smallest window that a spectrum processor accepts.
pub const MIN_WINDOW_SAMPLES: usize = 8;

/// Checks a configuration before a processor is built: a window shorter than
/// eight samples is refused with "window_size too small"; otherwise the
/// settings come back with their hop normalized.
pub fn prepare_settings(settings: FftSettings) -> (r: Result<FftSettings, CoreError>)
    ensures
        settings.window_size < MIN_WINDOW_SAMPLES <==> r is Err,
        settings.window_size < 8 <==> r is Err,
        r matches Err(CoreError::Dsp(m)) ==> m@ == "window_size too small"@,
        r matches Ok(s) ==> s == (FftSettings {
            hop_size: spec_normalized_hop(settings.window_size as int, settings.hop_size as int) as usize,
            ..settings
        }),
{
    if settings.window_size < MIN_WINDOW_SAMPLES {
        return Err(CoreError::Dsp(String::from_str("window_size too small")));
    }
    let hop = normalize_hop_size(settings.window_size, settings.hop_size);
    Ok(FftSettings { hop_size: hop, ..settings })
}

/// Number of bands that each output column has: with the constant-Q
/// transform it is the number of constant-Q bands (at least one), otherwise
/// the configured number of log bins.
pub fn output_bands(settings: &FftSettings, cqt_band_count: usize) -> (r: usize)
    ensures
        r == (if settings.transform == Transform::Cqt {
            if cqt_band_count >= 1 { cqt_band_count } else { 1 }
        } else {
            settings.log_bins
        }),
{
    if settings.transform == Transform::Cqt {
        if cqt_band_count >= 1 { cqt_band_count } else { 1 }
    } else {
        settings.log_bins
    }
}

} // verus!
