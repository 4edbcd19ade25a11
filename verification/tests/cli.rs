use hyprgram::cli::Args;
use hyprgram::dsp::{FftSettings, WindowFunction};
use hyprgram::profiles::ProfileImage;

fn args() -> Args {
    Args {
        target_object: None,
        profile: None,
        config: None,
        log_bins: None,
        window: None,
        hop: None,
        window_fn: None,
        width: None,
        height: None,
        history: 512,
        sample_rate: None,
        legacy_vertical_scroll: false,
    }
}

#[test]
fn default_profile_without_options() {
    let a = args();
    let base = a.builtin_base().unwrap();
    assert_eq!(base, FftSettings::default());
    assert_eq!(a.apply_overrides(base).unwrap(), base);
}

#[test]
fn named_profile_and_overrides() {
    let mut a = args();
    a.profile = Some("foobar-like".to_string());
    a.width = Some(1200);
    a.height = Some(600);
    a.window_fn = Some("Blackman-Harris".to_string());
    a.hop = Some(64);
    let base = a.builtin_base().unwrap();
    let s = a.apply_overrides(base).unwrap();
    assert_eq!(s.window_size, 32768);
    assert_eq!(s.hop_size, 64);
    assert_eq!(s.log_bins, 512);
    assert_eq!(s.window_fn, WindowFunction::BlackmanHarris);
    let img = a.apply_image_overrides(ProfileImage::resolve(None));
    assert_eq!(img, ProfileImage { width: 1200, height: 600, scroll_right_to_left: true });
    a.legacy_vertical_scroll = true;
    assert!(!a.apply_image_overrides(img).scroll_right_to_left);
}

#[test]
fn unknown_names_are_refused() {
    let mut a = args();
    a.profile = Some("turbo".to_string());
    assert_eq!(a.builtin_base(), Err("unknown profile 'turbo'".to_string()));
    let mut a = args();
    a.window_fn = Some("kaiser".to_string());
    assert_eq!(a.apply_overrides(FftSettings::default()), Err("unknown window function 'kaiser'".to_string()));
}
