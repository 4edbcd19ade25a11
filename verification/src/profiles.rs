//! Built-in profiles and the image section of a profile.
use vstd::prelude::*;
use crate::dsp::{spec_default_settings, BandAggregation, FftSettings, Transform, Weighting, WindowFunction};
use crate::text::str_eq;

verus! {

/// Image size and scroll direction of a profile.
#[derive(Clone, Copy, Debug, PartialEq, Eq, Structural)]
pub struct ProfileImage {
    pub width: u32,
    pub height: u32,
    pub scroll_right_to_left: bool,
}

/// Image width used when a profile does not give one.
pub fn default_width() -> (r: u32)
    ensures
        r == 800,
{
    800
}

/// Image height used when a profile does not give one.
pub fn default_height() -> (r: u32)
    ensures
        r == 200,
{
    200
}

/// Scroll direction used when a profile does not give one (right to left).
pub fn default_scroll() -> (r: bool)
    ensures
        r == true,
{
    true
}

/// The image section that a profile without one gets.
pub open spec fn spec_default_image() -> ProfileImage {
    ProfileImage { width: 800, height: 200, scroll_right_to_left: true }
}

impl ProfileImage {
    /// The image section of a profile: the given one, or 800 x 200 scrolling
    /// right to left when the profile has none.
    pub fn resolve(image: Option<ProfileImage>) -> (r: ProfileImage)
        ensures
            r == (match image {
                Some(i) => i,
                None => spec_default_image(),
            }),
    {
        match image {
            Some(i) => i,
            None => ProfileImage {
                width: default_width(),
                height: default_height(),
                scroll_right_to_left: default_scroll(),
            },
        }
    }
}

/// Names of the built-in profiles, in the order they are listed.
pub open spec fn spec_builtin_names() -> Seq<Seq<char>> {
    seq!["laptop"@, "default"@, "foobar-like"@]
}

/// The analysis settings of a built-in profile, by name.
pub open spec fn spec_builtin_settings(name: Seq<char>) -> Option<FftSettings> {
    let d = spec_default_settings();
    if name == "laptop"@ {
        Some(FftSettings { window_size: 4096, hop_size: 512, sample_rate: 48000, log_bins: 128, ..d })
    } else if name == "default"@ {
        Some(d)
    } else if name == "foobar-like"@ {
        Some(FftSettings { window_size: 32768, hop_size: 128, sample_rate: 48000, log_bins: 512, ..d })
    } else {
        None
    }
}

/// Names of the built-in profiles: laptop, default, foobar-like.
pub fn builtin_profile_names() -> (r: &'static [&'static str])
    ensures
        r@.len() == 3,
        forall|i: int| 0 <= i < 3 ==> #[trigger] r@[i]@ == spec_builtin_names()[i],
{
    let names: &'static [&'static str] = &["laptop", "default", "foobar-like"];
    names
}

/// The analysis settings of the built-in profile with the given name: the
/// laptop profile uses a 4096-sample window, hop 512 and 128 bins; the
/// default profile is the default configuration; the foobar-like profile
/// uses a 32768-sample window, hop 128 and 512 bins. Other fields keep their
/// defaults. Unknown names give `None`.
pub fn builtin_profile_settings(name: &str) -> (r: Option<FftSettings>)
    ensures
        r == spec_builtin_settings(name@),
        r matches Some(s) ==> {
            &&& s.transform == Transform::Stft
            &&& s.window_fn == WindowFunction::Hann
            &&& s.weighting == Weighting::Z
            &&& s.band_aggregation == BandAggregation::Nearest
            &&& s.cqt_bins_per_octave == 12
        },
        name@ == "laptop"@ ==> (r matches Some(s) && s.window_size == 4096 && s.hop_size == 512 && s.sample_rate
            == 48000 && s.log_bins == 128),
        name@ == "default"@ ==> r == Some(spec_default_settings()),
        name@ == "foobar-like"@ ==> (r matches Some(s) && s.window_size == 32768 && s.hop_size == 128
            && s.sample_rate == 48000 && s.log_bins == 512),
{
    proof {
        law_builtin_profiles(name@);
    }
    let d = FftSettings::default();
    if str_eq(name, "laptop") {
        Some(FftSettings { window_size: 4096, hop_size: 512, sample_rate: 48000, log_bins: 128, ..d })
    } else if str_eq(name, "default") {
        Some(d)
    } else if str_eq(name, "foobar-like") {
        Some(FftSettings { window_size: 32768, hop_size: 128, sample_rate: 48000, log_bins: 512, ..d })
    } else {
        None
    }
}

/// Every listed built-in name resolves to a profile, and only those do.
pub proof fn law_builtin_names_resolve(name: Seq<char>)
    ensures
        spec_builtin_settings(name) is Some <==> spec_builtin_names().contains(name),
{
    let names = spec_builtin_names();
    if spec_builtin_settings(name) is Some {
        if name == "laptop"@ {
            assert(names[0] == name);
        } else if name == "default"@ {
            assert(names[1] == name);
        } else {
            assert(names[2] == name);
        }
    }
    if names.contains(name) {
        let i = choose|i: int| 0 <= i < names.len() && names[i] == name;
        assert(i == 0 || i == 1 || i == 2);
    }
}

} // verus!

verus! {

/// What each built-in profile holds: laptop a 4096-sample window, hop 512,
/// 48 kHz and 128 bins; default the default settings (20480-sample window,
/// hop 256, 48 kHz, 256 bins); foobar-like a 32768-sample window, hop 128,
/// 48 kHz and 512 bins. Every profile uses the STFT with a Hann window, no
/// weighting, nearest-bin bands and 12 constant-Q bins per octave.
pub proof fn law_builtin_profiles(name: Seq<char>)
    ensures
        spec_builtin_settings(name) matches Some(s) ==> {
            &&& s.transform == Transform::Stft
            &&& s.window_fn == WindowFunction::Hann
            &&& s.weighting == Weighting::Z
            &&& s.band_aggregation == BandAggregation::Nearest
            &&& s.cqt_bins_per_octave == 12
        },
        name == "laptop"@ ==> (spec_builtin_settings(name) matches Some(s) && s.window_size == 4096 && s.hop_size
            == 512 && s.sample_rate == 48000 && s.log_bins == 128),
        name == "default"@ ==> (spec_builtin_settings(name) matches Some(s) && s.window_size == 20480 && s.hop_size
            == 256 && s.sample_rate == 48000 && s.log_bins == 256 && s == spec_default_settings()),
        name == "foobar-like"@ ==> (spec_builtin_settings(name) matches Some(s) && s.window_size == 32768
            && s.hop_size == 128 && s.sample_rate == 48000 && s.log_bins == 512),
{
    reveal_strlit("laptop");
    reveal_strlit("default");
    reveal_strlit("foobar-like");
    assert("laptop"@.len() == 6 && "default"@.len() == 7 && "foobar-like"@.len() == 11);
}

} // verus!
