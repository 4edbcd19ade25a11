use hyprgram::ring::SampleRing;

fn mean_bits(frame: &[u32], channels: usize) -> u32 {
    let mut acc = 0.0f32;
    for b in frame {
        acc += f32::from_bits(*b);
    }
    (acc / channels as f32).to_bits()
}

#[test]
fn mono_push_stops_when_full() {
    let mut r = SampleRing::new(4);
    let n = r.push_interleaved(&[1, 2, 3, 4, 5, 6], 1, |_f: &[u32]| 0);
    assert_eq!(n, 4);
    assert_eq!(r.available(), 4);
    let mut dst = [0u32; 3];
    assert_eq!(r.pop_into(&mut dst), 3);
    assert_eq!(dst, [1, 2, 3]);
    assert_eq!(r.available(), 1);
    assert_eq!(r.push_interleaved(&[7, 8, 9, 10], 1, |_f: &[u32]| 0), 3);
    let mut all = [99u32; 6];
    assert_eq!(r.pop_into(&mut all), 4);
    assert_eq!(all, [4, 7, 8, 9, 99, 99]);
    assert_eq!(r.available(), 0);
}

#[test]
fn zero_channels_push_nothing() {
    let mut r = SampleRing::new(8);
    assert_eq!(r.push_interleaved(&[1, 2, 3], 0, |_f: &[u32]| 0), 0);
    assert_eq!(r.available(), 0);
}

#[test]
fn stereo_frames_are_averaged() {
    let mut r = SampleRing::new(16);
    let s: Vec<u32> = [1.0f32, 3.0, -2.0, 2.0, 5.0].iter().map(|x| x.to_bits()).collect();
    let n = r.push_interleaved(&s, 2, |f: &[u32]| mean_bits(f, 2));
    assert_eq!(n, 3);
    let mut dst = [0u32; 3];
    assert_eq!(r.pop_into(&mut dst), 3);
    let got: Vec<f32> = dst.iter().map(|b| f32::from_bits(*b)).collect();
    // The short last frame is divided by the channel count, as a full one.
    assert_eq!(got, vec![2.0, 0.0, 2.5]);
}

#[test]
fn multichannel_push_stops_when_full() {
    let mut r = SampleRing::new(2);
    let n = r.push_interleaved(&[1, 1, 1, 2, 2, 2, 3, 3, 3], 3, |f: &[u32]| f.iter().sum());
    assert_eq!(n, 2);
    let mut dst = [0u32; 4];
    assert_eq!(r.pop_into(&mut dst), 2);
    assert_eq!(dst, [3, 6, 0, 0]);
}
