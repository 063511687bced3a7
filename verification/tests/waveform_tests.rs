//! Waveform summariser tests: mode switching, zoomed-in samples, pixel
//! partitioning and determinism.

use soundly::engine::{AudioEngine, TimePos};
use soundly::waveform::WaveformPlan;

fn bits_of(samples: &[f32]) -> Vec<u32> {
    samples.iter().map(|s| s.to_bits()).collect()
}

#[test]
fn empty_range_yields_the_requested_zero_tuples() {
    let mut engine = AudioEngine::new();
    engine.add_track("t".to_string(), 44100, 1, vec![0x3F00_0000u32; 1000]);
    let zero = TimePos { num: 0, den: 1 };
    match engine.get_track_waveform(0, &zero, &zero, 7) {
        WaveformPlan::Zeros(n) => assert_eq!(n, 7),
        _ => panic!("expected zero tuples"),
    }
}

#[test]
fn zoomed_in_returns_one_tuple_per_frame() {
    let mut engine = AudioEngine::new();
    // a stereo track of 100 frames with distinct channels
    let mut samples: Vec<f32> = Vec::new();
    for n in 0..100 {
        samples.push(n as f32 / 100.0);
        samples.push(-(n as f32) / 100.0);
    }
    engine.add_track("t".to_string(), 44100, 2, bits_of(&samples));

    let start = TimePos { num: 0, den: 1 };
    let end = TimePos { num: 100, den: 44100 };
    match engine.get_track_waveform(0, &start, &end, 10_000) {
        WaveformPlan::Samples(v) => {
            assert_eq!(v.len(), 100);
            for (n, tuple) in v.iter().enumerate() {
                let left = f32::from_bits(tuple.1);
                let right = f32::from_bits(tuple.3);
                assert_eq!(tuple.0, 0);
                assert_eq!(tuple.2, 0);
                assert_eq!(left, n as f32 / 100.0);
                assert_eq!(right, -(n as f32) / 100.0);
            }
        },
        _ => panic!("expected zoomed-in samples"),
    }
}

#[test]
fn short_range_returns_frame_count_not_pixel_count() {
    let mut engine = AudioEngine::new();
    engine.add_track("t".to_string(), 44100, 1, vec![0u32; 441]);
    let start = TimePos { num: 0, den: 1 };
    let end = TimePos { num: 1, den: 100 };
    // (end - start) * rate = 441 frames, fewer than the pixels requested
    match engine.get_track_waveform(0, &start, &end, 1000) {
        WaveformPlan::Samples(v) => assert_eq!(v.len(), 441),
        _ => panic!("expected zoomed-in samples"),
    }
}

#[test]
fn normal_mode_partitions_the_range() {
    let mut engine = AudioEngine::new();
    engine.add_track("t".to_string(), 44100, 1, vec![0u32; 44100]);
    let start = TimePos { num: 0, den: 1 };
    let end = TimePos { num: 1, den: 1 };
    match engine.get_track_waveform(0, &start, &end, 100) {
        WaveformPlan::Pixels(ranges) => {
            assert_eq!(ranges.len(), 100);
            assert_eq!(ranges[0].0, 0);
            assert_eq!(ranges[99].1, 44100);
            for w in ranges.windows(2) {
                // consecutive pixel ranges tile the clamped frame range
                assert_eq!(w[0].1, w[1].0);
            }
            for r in &ranges {
                assert_eq!(r.1 - r.0, 441);
            }
        },
        _ => panic!("expected pixel ranges"),
    }
}

#[test]
fn waveform_is_deterministic() {
    let mut engine = AudioEngine::new();
    let samples: Vec<f32> = (0..500).map(|n| ((n * 37) % 101) as f32 / 101.0 - 0.5).collect();
    engine.add_track("t".to_string(), 44100, 1, bits_of(&samples));
    let start = TimePos { num: 1, den: 1000 };
    let end = TimePos { num: 9, den: 1000 };

    let a = engine.get_track_waveform(0, &start, &end, 50);
    let b = engine.get_track_waveform(0, &start, &end, 50);
    match (a, b) {
        (WaveformPlan::Samples(x), WaveformPlan::Samples(y)) => assert_eq!(x, y),
        (WaveformPlan::Pixels(x), WaveformPlan::Pixels(y)) => assert_eq!(x, y),
        (WaveformPlan::Zeros(x), WaveformPlan::Zeros(y)) => assert_eq!(x, y),
        _ => panic!("the two calls disagreed on the mode"),
    }
}

#[test]
fn waveform_for_range_covers_every_track() {
    let mut engine = AudioEngine::new();
    let start = TimePos { num: 0, den: 1 };
    let end = TimePos { num: 1, den: 1 };
    assert_eq!(engine.get_waveform_for_range(&start, &end, 10).len(), 0);
    engine.add_track("a".to_string(), 44100, 1, vec![0u32; 100]);
    engine.add_track("b".to_string(), 44100, 2, vec![0u32; 200]);
    assert_eq!(engine.get_waveform_for_range(&start, &end, 10).len(), 2);
    assert_eq!(engine.get_waveform_for_range(&start, &end, 0).len(), 0);
}
