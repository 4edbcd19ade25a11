//! Command-line options of the live window and how they adjust a profile.
use vstd::prelude::*;
use crate::dsp::{spec_default_settings, FftSettings, WindowFunction};
use crate::ipc::{result_view, spec_window_choice};
use crate::profiles::{builtin_profile_settings, law_builtin_profiles, spec_builtin_settings, ProfileImage};
use crate::text::{chars_of, to_lower, lowercase_chars, push_chars, push_str, string_from_chars};
use std::path::PathBuf;

verus! {

#[verifier::external_type_specification]
#[verifier::external_body]
pub struct ExPathBuf(PathBuf);

/// Options of the live spectrogram window.
#[derive(Debug, Clone)]
pub struct Args {
    /// PipeWire target object id or name for the capture stream.
    pub target_object: Option<String>,
    /// Built-in profile: laptop, default, foobar-like.
    pub profile: Option<String>,
    /// Path to a TOML profile file.
    pub config: Option<PathBuf>,
    /// Override: number of log-spaced frequency bins.
    pub log_bins: Option<usize>,
    /// Override: FFT window length (samples).
    pub window: Option<usize>,
    /// Override: STFT hop (samples).
    pub hop: Option<usize>,
    /// Override: window function (hann, hamming, blackman, blackman-harris).
    pub window_fn: Option<String>,
    /// Override: window width (px).
    pub width: Option<u32>,
    /// Override: window height (px).
    pub height: Option<u32>,
    /// Time rows in the waterfall.
    pub history: u32,
    /// Override: sample rate (Hz).
    pub sample_rate: Option<u32>,
    /// Scroll time top-to-bottom instead of right-to-left.
    pub legacy_vertical_scroll: bool,
}

pub open spec fn or_keep<T>(o: Option<T>, d: T) -> T {
    match o {
        Some(v) => v,
        None => d,
    }
}

/// The built-in profile that the options name (`default` when none is
/// named).
pub open spec fn spec_builtin_base(profile: Option<Seq<char>>) -> Result<FftSettings, Seq<char>> {
    let name = or_keep(profile, "default"@);
    match spec_builtin_settings(name) {
        Some(s) => Ok(s),
        None => Err("unknown profile '"@ + name + "'"@),
    }
}

/// The settings after the options' overrides.
pub open spec fn spec_overridden(
    base: FftSettings,
    window: Option<usize>,
    hop: Option<usize>,
    log_bins: Option<usize>,
    sample_rate: Option<u32>,
    window_fn: Option<WindowFunction>,
) -> FftSettings {
    FftSettings {
        window_size: or_keep(window, base.window_size),
        hop_size: or_keep(hop, base.hop_size),
        log_bins: or_keep(log_bins, base.log_bins),
        sample_rate: or_keep(sample_rate, base.sample_rate),
        window_fn: or_keep(window_fn, base.window_fn),
        ..base
    }
}

/// A given override replaces the profile's value and an absent one keeps
/// it; the fields that have no option (transform, weighting, band
/// aggregation, constant-Q resolution) always keep the profile's value.
pub proof fn law_overrides_used(
    base: FftSettings,
    window: Option<usize>,
    hop: Option<usize>,
    log_bins: Option<usize>,
    sample_rate: Option<u32>,
    window_fn: Option<WindowFunction>,
)
    ensures
        ({
            let s = spec_overridden(base, window, hop, log_bins, sample_rate, window_fn);
            &&& (window matches Some(v) ==> s.window_size == v)
            &&& (window is None ==> s.window_size == base.window_size)
            &&& (hop matches Some(v) ==> s.hop_size == v)
            &&& (hop is None ==> s.hop_size == base.hop_size)
            &&& (log_bins matches Some(v) ==> s.log_bins == v)
            &&& (log_bins is None ==> s.log_bins == base.log_bins)
            &&& (sample_rate matches Some(v) ==> s.sample_rate == v)
            &&& (sample_rate is None ==> s.sample_rate == base.sample_rate)
            &&& (window_fn matches Some(w) ==> s.window_fn == w)
            &&& (window_fn is None ==> s.window_fn == base.window_fn)
            &&& s.transform == base.transform
            &&& s.weighting == base.weighting
            &&& s.band_aggregation == base.band_aggregation
            &&& s.cqt_bins_per_octave == base.cqt_bins_per_octave
        }),
{
}

impl Args {
    /// The analysis settings of the built-in profile that `--profile` names
    /// (`default` when it is absent); an unknown name is refused.
    pub fn builtin_base(&self) -> (r: Result<FftSettings, String>)
        ensures
            result_view(r) == spec_builtin_base(match self.profile {
                Some(p) => Some(p@),
                None => None,
            }),
            self.profile is None ==> r == Ok::<FftSettings, String>(spec_default_settings()),
            r matches Ok(s) ==> self.profile matches Some(p) ==> spec_builtin_settings(p@) == Some(s),
    {
        proof {
            reveal_strlit("default");
            law_builtin_profiles("default"@);
        }
        let name: Vec<char> = match &self.profile {
            Some(p) => chars_of(p.as_str()),
            None => chars_of("default"),
        };
        let n = string_from_chars(name.as_slice());
        match builtin_profile_settings(n.as_str()) {
            Some(s) => Ok(s),
            None => {
                let mut m: Vec<char> = Vec::new();
                push_str(&mut m, "unknown profile '");
                push_chars(&mut m, name.as_slice());
                push_str(&mut m, "'");
                proof {
                    assert(m@ =~= "unknown profile '"@ + name@ + "'"@);
                }
                Err(string_from_chars(m.as_slice()))
            },
        }
    }

    /// Applies the window, hop, bins, sample-rate and window-function
    /// overrides to a profile's settings. The window function is named as in
    /// profiles (any case); an unknown name is refused.
    pub fn apply_overrides(&self, base: FftSettings) -> (r: Result<FftSettings, String>)
        ensures
            match self.window_fn {
                None => r == Ok::<FftSettings, String>(spec_overridden(base, self.window, self.hop, self.log_bins, self.sample_rate, None)),
                Some(name) => match spec_window_choice(to_lower(name@), name@) {
                    Ok(w) => r == Ok::<FftSettings, String>(spec_overridden(base, self.window, self.hop, self.log_bins, self.sample_rate, Some(w))),
                    Err(e) => r matches Err(m) && m@ == e,
                },
            },
            self.window_fn is None ==> r is Ok,
            r matches Ok(s) ==> {
                &&& (self.window matches Some(v) ==> s.window_size == v)
                &&& (self.window is None ==> s.window_size == base.window_size)
                &&& (self.hop matches Some(v) ==> s.hop_size == v)
                &&& (self.hop is None ==> s.hop_size == base.hop_size)
                &&& (self.log_bins matches Some(v) ==> s.log_bins == v)
                &&& (self.log_bins is None ==> s.log_bins == base.log_bins)
                &&& (self.sample_rate matches Some(v) ==> s.sample_rate == v)
                &&& (self.sample_rate is None ==> s.sample_rate == base.sample_rate)
                &&& (self.window_fn is None ==> s.window_fn == base.window_fn)
                &&& s.transform == base.transform
                &&& s.weighting == base.weighting
                &&& s.band_aggregation == base.band_aggregation
                &&& s.cqt_bins_per_octave == base.cqt_bins_per_octave
            },
    {
        let wf: Option<WindowFunction> = match &self.window_fn {
            None => None,
            Some(name) => {
                let c = chars_of(name.as_str());
                let l = lowercase_chars(c.as_slice());
                match crate::ipc::window_from_lowercase(l.as_slice(), c.as_slice()) {
                    Ok(w) => Some(w),
                    Err(e) => {
                        return Err(e);
                    },
                }
            },
        };
        proof {
            law_overrides_used(base, self.window, self.hop, self.log_bins, self.sample_rate, wf);
        }
        Ok(FftSettings {
            window_size: match self.window {
                Some(v) => v,
                None => base.window_size,
            },
            hop_size: match self.hop {
                Some(v) => v,
                None => base.hop_size,
            },
            log_bins: match self.log_bins {
                Some(v) => v,
                None => base.log_bins,
            },
            sample_rate: match self.sample_rate {
                Some(v) => v,
                None => base.sample_rate,
            },
            window_fn: match wf {
                Some(w) => w,
                None => base.window_fn,
            },
            ..base
        })
    }

    /// The image section after the width, height and scroll overrides.
    pub fn apply_image_overrides(&self, base: ProfileImage) -> (r: ProfileImage)
        ensures
            r == (ProfileImage {
                width: or_keep(self.width, base.width),
                height: or_keep(self.height, base.height),
                scroll_right_to_left: !self.legacy_vertical_scroll,
            }),
            self.width matches Some(v) ==> r.width == v,
            self.width is None ==> r.width == base.width,
            self.height matches Some(v) ==> r.height == v,
            self.height is None ==> r.height == base.height,
            r.scroll_right_to_left == !self.legacy_vertical_scroll,
    {
        ProfileImage {
            width: match self.width {
                Some(v) => v,
                None => base.width,
            },
            height: match self.height {
                Some(v) => v,
                None => base.height,
            },
            scroll_right_to_left: !self.legacy_vertical_scroll,
        }
    }
}

} // verus!
