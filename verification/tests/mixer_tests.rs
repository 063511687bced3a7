//! Mixer policy tests: the channel-rearranging policies computed in the
//! library, the per-sample contribution queries, and the export dispatch.

use soundly::engine::{AudioEngine, TimePos};
use soundly::mixer::{ChannelSuffix, MixContribution};
use soundly::export::{export_format_of, split_output_path, ExportFormat};

fn bits_vec(value: f32, count: usize) -> Vec<u32> {
    vec![value.to_bits(); count]
}

fn quantize(x: f32) -> i16 {
    (x * 32767.0).clamp(-32768.0, 32767.0) as i16
}

#[test]
fn mono_pair_to_stereo_places_the_pair() {
    let mut engine = AudioEngine::new();
    // two mono tracks, one second each: constant +0.5 and -0.5
    engine.add_track("a".to_string(), 44100, 1, bits_vec(0.5, 44100));
    engine.add_track("b".to_string(), 44100, 1, bits_vec(-0.5, 44100));

    let start = TimePos { num: 0, den: 1 };
    let end = TimePos { num: 1, den: 1 };
    let out = engine.mix_tracks_mono_to_stereo(&start, &end);
    assert_eq!(out.len(), 44100 * 2);
    for f in 0..44100 {
        assert_eq!(f32::from_bits(out[2 * f]), 0.5);
        assert_eq!(f32::from_bits(out[2 * f + 1]), -0.5);
    }

    // quantized, the pair lands within one step of the exact values
    let l = quantize(f32::from_bits(out[0]));
    let r = quantize(f32::from_bits(out[1]));
    assert!((l - 16383).abs() <= 1, "left {l}");
    assert!((r + 16383).abs() <= 1, "right {r}");
}

#[test]
fn mono_pair_to_stereo_ignores_stereo_and_unpaired_tracks() {
    let mut engine = AudioEngine::new();
    engine.add_track("s".to_string(), 44100, 2, bits_vec(0.9, 200));
    engine.add_track("a".to_string(), 44100, 1, bits_vec(0.25, 100));
    engine.add_track("b".to_string(), 44100, 1, bits_vec(-0.25, 100));
    engine.add_track("odd".to_string(), 44100, 1, bits_vec(0.7, 100));

    let start = TimePos { num: 0, den: 1 };
    let end = TimePos { num: 100, den: 44100 };
    let out = engine.mix_tracks_mono_to_stereo(&start, &end);
    assert_eq!(out.len(), 200);
    for f in 0..100 {
        assert_eq!(f32::from_bits(out[2 * f]), 0.25);
        assert_eq!(f32::from_bits(out[2 * f + 1]), -0.25);
    }
}

#[test]
fn split_emits_left_and_right_of_each_stereo_track() {
    let mut engine = AudioEngine::new();
    // one stereo track, a quarter second at 48 kHz: L = +0.25, R = -0.25
    let mut data: Vec<u32> = Vec::new();
    for _ in 0..12000 {
        data.push(0.25f32.to_bits());
        data.push((-0.25f32).to_bits());
    }
    engine.add_track("t".to_string(), 48000, 2, data);

    let start = TimePos { num: 0, den: 1 };
    let end = TimePos { num: 1, den: 4 };
    let items = engine.mix_tracks_split(&start, &end);
    assert_eq!(items.len(), 2);

    assert_eq!(items[0].3, ChannelSuffix::Left);
    assert_eq!(items[0].1, 48000);
    assert_eq!(items[0].2, 1);
    assert_eq!(items[0].0.len(), 12000);
    assert!(items[0].0.iter().all(|&b| f32::from_bits(b) == 0.25));

    assert_eq!(items[1].3, ChannelSuffix::Right);
    assert_eq!(items[1].0.len(), 12000);
    assert!(items[1].0.iter().all(|&b| f32::from_bits(b) == -0.25));
}

#[test]
fn split_without_stereo_tracks_yields_one_empty_output() {
    let mut engine = AudioEngine::new();
    engine.add_track("m".to_string(), 44100, 1, bits_vec(0.5, 100));
    let start = TimePos { num: 0, den: 1 };
    let end = TimePos { num: 1, den: 1 };
    let items = engine.mix_tracks_split(&start, &end);
    assert_eq!(items.len(), 1);
    assert_eq!(items[0].0.len(), 0);
    assert_eq!(items[0].2, 1);
    assert_eq!(items[0].3, ChannelSuffix::Plain);
}

#[test]
fn playback_contributions_follow_the_channel_policy() {
    let mut engine = AudioEngine::new();
    engine.add_track("m".to_string(), 44100, 1, bits_vec(0.5, 100));
    engine.add_track("s".to_string(), 44100, 2, {
        let mut d = Vec::new();
        for _ in 0..100 {
            d.push(0.25f32.to_bits());
            d.push((-0.25f32).to_bits());
        }
        d
    });
    assert_eq!(engine.playback_out_channels(), 2);

    let start = TimePos { num: 0, den: 1 };
    let end = TimePos { num: 100, den: 44100 };
    assert_eq!(engine.total_mix_frames(&start, &end), 100);

    // a mono track lands in both output channels
    let (l, r) = engine.playback_contribution(0, &start, &end, 0, 2);
    assert_eq!(l.map(f32::from_bits), Some(0.5));
    assert_eq!(r.map(f32::from_bits), Some(0.5));

    // a stereo track lands channel for channel
    let (l, r) = engine.playback_contribution(1, &start, &end, 0, 2);
    assert_eq!(l.map(f32::from_bits), Some(0.25));
    assert_eq!(r.map(f32::from_bits), Some(-0.25));

    // past the range's end nothing contributes
    let (l, r) = engine.playback_contribution(0, &start, &end, 100, 2);
    assert_eq!(l, None);
    assert_eq!(r, None);

    // with mono output a stereo track contributes nothing
    let (l, _r) = engine.playback_contribution(1, &start, &end, 0, 1);
    assert_eq!(l, None);
}

#[test]
fn mono_contributions_pair_stereo_frames() {
    let mut engine = AudioEngine::new();
    engine.add_track("s".to_string(), 44100, 2, {
        let mut d = Vec::new();
        for _ in 0..10 {
            d.push(0.5f32.to_bits());
            d.push((-0.5f32).to_bits());
        }
        d
    });
    engine.add_track("m".to_string(), 44100, 1, bits_vec(0.125, 10));
    let start = TimePos { num: 0, den: 1 };

    match engine.mono_contribution(0, &start, 3) {
        MixContribution::Pair(l, r) => {
            assert_eq!(f32::from_bits(l), 0.5);
            assert_eq!(f32::from_bits(r), -0.5);
        },
        _ => panic!("expected a stereo pair"),
    }
    match engine.mono_contribution(1, &start, 3) {
        MixContribution::Sample(v) => assert_eq!(f32::from_bits(v), 0.125),
        _ => panic!("expected a mono sample"),
    }
    assert_eq!(engine.mono_contribution(1, &start, 10), MixContribution::Silence);
}

#[test]
fn export_dispatch_is_case_insensitive_and_closed() {
    assert_eq!(export_format_of(b"out.wav"), Some(ExportFormat::Wav));
    assert_eq!(export_format_of(b"OUT.WAV"), Some(ExportFormat::Wav));
    assert_eq!(export_format_of(b"mix.FlAc"), Some(ExportFormat::Flac));
    assert_eq!(export_format_of(b"song.mp3"), Some(ExportFormat::Mp3));
    assert_eq!(export_format_of(b"song.ogg"), None);
    assert_eq!(export_format_of(b"wav"), None);
}

#[test]
fn split_paths_insert_the_suffix_before_the_extension() {
    assert_eq!(split_output_path(b"out.flac", b"_L"), b"out_L.flac");
    assert_eq!(split_output_path(b"a.b/out.wav", b"_R"), b"a.b/out_R.wav");
    assert_eq!(split_output_path(b"noext", b"_L"), b"noext_L");
}
