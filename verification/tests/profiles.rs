use hyprgram::dsp::FftSettings;
use hyprgram::profiles::{
    builtin_profile_names, builtin_profile_settings, default_height, default_scroll,
    default_width, ProfileImage,
};

#[test]
fn builtin_names_are_listed_in_order() {
    assert_eq!(builtin_profile_names(), &["laptop", "default", "foobar-like"]);
}

#[test]
fn every_listed_name_resolves() {
    for n in builtin_profile_names() {
        assert!(builtin_profile_settings(n).is_some(), "{n}");
    }
    assert!(builtin_profile_settings("Laptop").is_none());
    assert!(builtin_profile_settings("").is_none());
    assert!(builtin_profile_settings("high_quality").is_none());
}

#[test]
fn builtin_profiles_match_readme_table() {
    let l = builtin_profile_settings("laptop").unwrap();
    assert_eq!((l.window_size, l.hop_size, l.log_bins, l.sample_rate), (4096, 512, 128, 48000));
    let d = builtin_profile_settings("default").unwrap();
    assert_eq!(d, FftSettings::default());
    assert_eq!((d.window_size, d.hop_size, d.log_bins), (20480, 256, 256));
    let f = builtin_profile_settings("foobar-like").unwrap();
    assert_eq!((f.window_size, f.hop_size, f.log_bins, f.sample_rate), (32768, 128, 512, 48000));
    assert_eq!(f.window_fn, FftSettings::default().window_fn);
}

#[test]
fn image_defaults() {
    assert_eq!(default_width(), 800);
    assert_eq!(default_height(), 200);
    assert!(default_scroll());
    let d = ProfileImage::resolve(None);
    assert_eq!(d, ProfileImage { width: 800, height: 200, scroll_right_to_left: true });
    let given = ProfileImage { width: 10, height: 20, scroll_right_to_left: false };
    assert_eq!(ProfileImage::resolve(Some(given)), given);
}
