use hyprgram::dsp::{BandAggregation, Transform, Weighting, WindowFunction};
use hyprgram::ipc::{
    classify_line, delivery_reply, error_reply, parse_bool, parse_command, parse_slider,
    parse_stops, DspSlider, LineAction, Query, SettingsMessage,
};

fn err(line: &str) -> String {
    match parse_command(line) {
        Err(e) => e,
        Ok(m) => panic!("accepted {line:?}: {m:?}"),
    }
}

fn one(line: &str) -> SettingsMessage {
    let mut v = parse_command(line).unwrap();
    assert_eq!(v.len(), 1, "{line}");
    v.remove(0)
}

#[test]
fn bool_words() {
    for t in ["true", "1", "on", "TRUE", "On"] {
        assert_eq!(parse_bool(t), Ok(true), "{t}");
    }
    for f in ["false", "0", "off", "OFF"] {
        assert_eq!(parse_bool(f), Ok(false), "{f}");
    }
    assert_eq!(parse_bool("yes"), Err("expected true/false, got 'yes'".to_string()));
    assert_eq!(parse_bool(""), Err("expected true/false, got ''".to_string()));
}

#[test]
fn slider_names() {
    assert_eq!(parse_slider("fft-size"), Ok(DspSlider::WindowSize));
    assert_eq!(parse_slider("Window-Size"), Ok(DspSlider::WindowSize));
    assert_eq!(parse_slider("hop"), Ok(DspSlider::HopSize));
    assert_eq!(parse_slider("log-bins"), Ok(DspSlider::LogBins));
    assert_eq!(parse_slider("f-min"), Ok(DspSlider::FMin));
    assert_eq!(parse_slider("f-max"), Ok(DspSlider::FMax));
    assert_eq!(parse_slider("db-floor"), Ok(DspSlider::DbFloor));
    assert_eq!(parse_slider("db-ceil"), Ok(DspSlider::DbCeil));
    assert_eq!(parse_slider("smoothing"), Ok(DspSlider::Smoothing));
    assert_eq!(parse_slider("gamma"), Ok(DspSlider::Gamma));
    assert_eq!(parse_slider("temporal-alpha"), Ok(DspSlider::TemporalAlpha));
    assert_eq!(parse_slider("peak-decay"), Ok(DspSlider::PeakDecay));
    assert_eq!(parse_slider("cqt-bins"), Ok(DspSlider::CqtBins));
    assert_eq!(parse_slider("freq-scale-exp"), Ok(DspSlider::FreqScaleExp));
    assert_eq!(parse_slider("HISTORY"), Ok(DspSlider::History));
    assert_eq!(
        parse_slider("zoom"),
        Err("unknown parameter 'zoom'. Available: fft-size, hop, log-bins, f-min, f-max, db-floor, db-ceil, smoothing, gamma, temporal-alpha, peak-decay, cqt-bins, freq-scale-exp, history".to_string())
    );
}

#[test]
fn plain_commands() {
    assert!(matches!(one("colormap inferno"), SettingsMessage::SetColormap(s) if s == "inferno"));
    assert!(matches!(one("COLORMAP   my map  "), SettingsMessage::SetColormap(s) if s == "my map"));
    assert!(matches!(one("contrast 1.5"), SettingsMessage::SetContrast(s) if s == "1.5"));
    assert!(matches!(one("saturation 0.8"), SettingsMessage::SetSaturation(s) if s == "0.8"));
    assert!(matches!(one("opacity 0.7"), SettingsMessage::SetOpacity(s) if s == "0.7"));
    assert!(matches!(one("profile high_quality"), SettingsMessage::SetProfile(s) if s == "high_quality"));
    assert!(matches!(one("overlay none"), SettingsMessage::SetOverlay(s) if s == "none"));
    assert!(matches!(one("source Output 1 · alsa"), SettingsMessage::SetSource(s) if s == "Output 1 · alsa"));
    assert!(matches!(one("toggle-menu"), SettingsMessage::Toggle));
    assert!(matches!(one("close-menu"), SettingsMessage::Close));
    assert!(matches!(one("colormap"), SettingsMessage::SetColormap(s) if s.is_empty()));
}

#[test]
fn choice_commands() {
    assert!(matches!(one("window-fn blackman-harris"), SettingsMessage::SetWindowFn(WindowFunction::BlackmanHarris)));
    assert!(matches!(one("window-fn Hann"), SettingsMessage::SetWindowFn(WindowFunction::Hann)));
    assert!(matches!(one("weighting a"), SettingsMessage::SetWeighting(Weighting::A)));
    assert!(matches!(one("weighting none"), SettingsMessage::SetWeighting(Weighting::Z)));
    assert!(matches!(one("transform cqt"), SettingsMessage::SetTransform(Transform::Cqt)));
    assert!(matches!(one("band-agg triangular"), SettingsMessage::SetBandAggregation(BandAggregation::Triangular)));
    assert!(matches!(one("band-aggregation nearest"), SettingsMessage::SetBandAggregation(BandAggregation::Nearest)));
    assert!(matches!(one("centered true"), SettingsMessage::SetCentered(true)));
    assert!(matches!(one("shared-bg off"), SettingsMessage::SetSharedBg(false)));
    assert!(matches!(one("additive-blend 1"), SettingsMessage::SetAdditiveBlend(true)));
    assert_eq!(err("window-fn kaiser"), "unknown window function 'kaiser'");
    assert_eq!(err("weighting b"), "unknown weighting 'b'");
    assert_eq!(err("transform swift"), "unknown transform 'swift'");
    assert_eq!(err("band-agg max"), "unknown band aggregation 'max'");
    assert_eq!(err("centered maybe"), "expected true/false, got 'maybe'");
}

#[test]
fn set_command() {
    let v = parse_command("set fft-size 8192").unwrap();
    assert_eq!(v.len(), 2);
    assert!(matches!(&v[0], SettingsMessage::AdvancedSlider(DspSlider::WindowSize, s) if s == "8192"));
    assert!(matches!(&v[1], SettingsMessage::AdvancedSliderRelease(DspSlider::WindowSize)));
    assert_eq!(err("set hop"), "expected: set <param> <value>");
    assert!(err("set zoom 2").starts_with("unknown parameter 'zoom'."));
}

#[test]
fn unknown_command() {
    assert_eq!(err("Frobnicate now"), "unknown command 'frobnicate'. Send 'help' for usage.");
}

#[test]
fn stops_commands() {
    match one("colormap-stops my-cm 0.0,0.0,0.0,0.0 1.0,1.0,1.0,1.0") {
        SettingsMessage::SetColormapStops(name, list) => {
            assert_eq!(name, "my-cm");
            assert_eq!(list.stops.len(), 2);
        }
        m => panic!("{m:?}"),
    }
    assert!(matches!(one("colormap-save a 0,0,0,0 1,1,1,1"), SettingsMessage::SaveColormapStops(n, _) if n == "a"));
    assert_eq!(err("colormap-stops onlyname"), "expected: colormap-stops <name> <pos,r,g,b> ...");
    assert_eq!(err("colormap-save onlyname"), "expected: colormap-save <name> <pos,r,g,b> ...");
}

fn chars(s: &str) -> Vec<char> {
    s.chars().collect()
}

#[test]
fn stop_lists() {
    let l = parse_stops(&chars("0.0,0.05,0.0,0.1 0.5,0.5,0.2,0.5 LIGHT-CONTRAST 1.4 chroma-scale 1.1")).unwrap();
    assert_eq!(l.stops.len(), 2);
    let s = &l.stops[1];
    assert_eq!((s.pos.as_str(), s.red.as_str(), s.green.as_str(), s.blue.as_str()), ("0.5", "0.5", "0.2", "0.5"));
    assert_eq!(l.light_contrast.as_deref(), Some("1.4"));
    assert_eq!(l.chroma_scale.as_deref(), Some("1.1"));
    let l = parse_stops(&chars("0,0,0,0 1,1,1,1 light-contrast 2 light-contrast 3")).unwrap();
    assert_eq!(l.light_contrast.as_deref(), Some("3"));
    assert!(l.chroma_scale.is_none());

    let e = |s: &str| parse_stops(&chars(s)).unwrap_err();
    assert_eq!(e("0,0,0,0"), "need at least 2 stops");
    assert_eq!(e("0,0,0,0 1,1,1 2,2,2,2"), "expected pos,r,g,b \u{2014} got '1,1,1'");
    assert_eq!(e("0,0,0,0 1,1,1,1 light-contrast"), "expected value after 'light-contrast'");
    assert_eq!(e("chroma-scale"), "expected value after 'chroma-scale'");
    assert_eq!(e(",,, 1,2,3,4"), "bad position in ',,,'");
    assert_eq!(e("0,x,0,0 1,1,1,1"), "bad red in '0,x,0,0'");
    assert_eq!(e("0,0,x,0 1,1,1,1"), "bad green in '0,0,x,0'");
    assert_eq!(e("0,0,0,x 1,1,1,1"), "bad blue in '0,0,0,x'");
    assert_eq!(e("light-contrast much 0,0,0,0 1,1,1,1"), "bad light-contrast value 'much'");
    assert_eq!(e("0,0,0,0 1,1,1,1 chroma-scale x"), "bad chroma-scale value 'x'");
    // The first problem in token order is the one reported.
    assert_eq!(e("0,q,0,0 1,1,1"), "bad red in '0,q,0,0'");
    assert_eq!(e("x,0,0,0"), "bad position in 'x,0,0,0'");
}

fn positions(s: &str) -> Vec<String> {
    parse_stops(&chars(s)).unwrap().stops.into_iter().map(|t| t.pos).collect()
}

#[test]
fn stops_are_sorted_by_position() {
    let l = parse_stops(&chars("1.0,1.0,1.0,1.0 0.0,0.0,0.0,0.0")).unwrap();
    let got: Vec<(&str, &str, &str, &str)> =
        l.stops.iter().map(|t| (t.pos.as_str(), t.red.as_str(), t.green.as_str(), t.blue.as_str())).collect();
    assert_eq!(got, vec![("0.0", "0.0", "0.0", "0.0"), ("1.0", "1.0", "1.0", "1.0")]);
    assert_eq!(positions("0.9,0,0,0 0.1,0,0,0 0.5,0,0,0 0.25,0,0,0"), ["0.1", "0.25", "0.5", "0.9"]);
    // By value, not by text.
    assert_eq!(positions("10,0,0,0 9,0,0,0 1e1,0,0,0 0.95e1,0,0,0"), ["9", "0.95e1", "10", "1e1"]);
    assert_eq!(positions("-0.5,0,0,0 -2,0,0,0 0,0,0,0 -0.0,0,0,0"), ["-2", "-0.5", "0", "-0.0"]);
    assert_eq!(positions("NaN,0,0,0 inf,0,0,0 -inf,0,0,0 1e-40,0,0,0 0.001,0,0,0"), ["-inf", "1e-40", "0.001", "inf", "NaN"]);
    // Exponents beyond a billion in size count as a billion: such stops keep their order.
    assert_eq!(positions("1e99999999999,0,0,0 1e9999999999,0,0,0 0,0,0,0"), ["0", "1e99999999999", "1e9999999999"]);
}

#[test]
fn stops_at_equal_positions_keep_their_order() {
    let l = parse_stops(&chars("0.5,1,0,0 0.50,0,1,0 0,0,0,0 5e-1,0,0,1")).unwrap();
    let got: Vec<(&str, &str, &str, &str)> =
        l.stops.iter().map(|t| (t.pos.as_str(), t.red.as_str(), t.green.as_str(), t.blue.as_str())).collect();
    assert_eq!(got, vec![("0", "0", "0", "0"), ("0.5", "1", "0", "0"), ("0.50", "0", "1", "0"), ("5e-1", "0", "0", "1")]);
    match one("colormap-stops m 1,1,1,1 0,0,0,0") {
        SettingsMessage::SetColormapStops(_, list) => assert_eq!(list.stops[0].pos, "0"),
        m => panic!("{m:?}"),
    }
}

#[test]
fn number_arguments_are_checked() {
    assert_eq!(err("contrast abc"), "expected number");
    assert_eq!(err("saturation"), "expected number");
    assert_eq!(err("opacity 1.0.0"), "expected number");
    assert_eq!(err("set hop 12x"), "expected number");
    assert_eq!(err("colormap-stops m 0,0,0,0 1,one,1,1"), "bad red in '1,one,1,1'");
    for ok in ["1", "-1", "+.5", "5.", "1e3", "1E-3", "inf", "-Infinity", "NaN", "0.25e+2"] {
        assert!(matches!(one(&format!("contrast {ok}")), SettingsMessage::SetContrast(s) if s == ok), "{ok}");
        assert!(ok.parse::<f32>().is_ok(), "{ok}");
    }
    for bad in ["", ".", "e5", "1e", "1e+", "+", "infin", "1_000", "0x10", "1 2", "--1"] {
        assert!(bad.parse::<f32>().is_err(), "{bad}");
        assert!(matches!(parse_command(&format!("opacity {bad}")), Err(e) if e == "expected number"), "{bad}");
    }
}

#[test]
fn line_classification() {
    assert!(matches!(classify_line("   "), LineAction::Skip));
    assert!(matches!(classify_line("  Help "), LineAction::Query(Query::Help)));
    assert!(matches!(classify_line("list-colormaps"), LineAction::Query(Query::ListColormaps)));
    assert!(matches!(classify_line("LIST-PROFILES"), LineAction::Query(Query::ListProfiles)));
    assert!(matches!(classify_line("list-overlays"), LineAction::Query(Query::ListOverlays)));
    match classify_line("  contrast 2 ") {
        LineAction::Commands(Ok(v)) => assert!(matches!(&v[0], SettingsMessage::SetContrast(s) if s == "2")),
        a => panic!("{a:?}"),
    }
    assert!(matches!(classify_line("bogus"), LineAction::Commands(Err(_))));
    assert_eq!(error_reply("bad"), "error: bad");
    assert_eq!(delivery_reply(true), "ok");
    assert_eq!(delivery_reply(false), "error: channel closed");
}
