//! Round trips through the WAV writer: mix, quantize, write, read back and
//! reload, checking rates, channel counts and frame counts.

use soundly::engine::{AudioEngine, TimePos};

/// Fold the library's per-sample contributions into an interleaved float
/// buffer, the way the playback and export paths do.
fn fold_playback_mix(engine: &AudioEngine, start: &TimePos, end: &TimePos) -> (Vec<f32>, u32, usize) {
    let rate = engine.get_sample_rate();
    let out_channels = engine.playback_out_channels();
    let total = engine.total_mix_frames(start, end);
    let mut data = vec![0.0f32; total * out_channels];
    for frame in 0..total {
        let mut acc_l = 0.0f32;
        let mut acc_r = 0.0f32;
        for t in 0..engine.get_track_count() {
            let (l, r) = engine.playback_contribution(t, start, end, frame, out_channels);
            if let Some(bits) = l {
                acc_l += f32::from_bits(bits);
            }
            if let Some(bits) = r {
                acc_r += f32::from_bits(bits);
            }
        }
        data[frame * out_channels] = acc_l.clamp(-1.0, 1.0);
        if out_channels == 2 {
            data[frame * out_channels + 1] = acc_r.clamp(-1.0, 1.0);
        }
    }
    (data, rate, out_channels)
}

fn quantize(x: f32) -> i16 {
    (x.clamp(-1.0, 1.0) * 32767.0) as i16
}

#[test]
fn wav_export_reloads_with_matching_parameters() {
    let mut engine = AudioEngine::new();
    // half a second of a ramp, stereo at 44.1 kHz
    let mut samples: Vec<u32> = Vec::new();
    for n in 0..22050 {
        let v = (n % 1000) as f32 / 1000.0 - 0.5;
        samples.push(v.to_bits());
        samples.push((-v).to_bits());
    }
    engine.add_track("ramp".to_string(), 44100, 2, samples);

    let start = TimePos { num: 0, den: 1 };
    let end = TimePos { num: 1, den: 2 };
    let (mix, rate, channels) = fold_playback_mix(&engine, &start, &end);
    assert_eq!(rate, 44100);
    assert_eq!(channels, 2);
    assert_eq!(mix.len(), 22050 * 2);

    // write a 16-bit WAV into memory
    let spec = hound::WavSpec {
        channels: channels as u16,
        sample_rate: rate,
        bits_per_sample: 16,
        sample_format: hound::SampleFormat::Int,
    };
    let mut cursor = std::io::Cursor::new(Vec::<u8>::new());
    {
        let mut writer = hound::WavWriter::new(&mut cursor, spec).unwrap();
        for &s in &mix {
            writer.write_sample(quantize(s)).unwrap();
        }
        writer.finalize().unwrap();
    }

    // read it back and reload it as a new track
    cursor.set_position(0);
    let mut reader = hound::WavReader::new(cursor).unwrap();
    let read_spec = reader.spec();
    assert_eq!(read_spec.sample_rate, 44100);
    assert_eq!(read_spec.channels, 2);
    let read_samples: Vec<i16> = reader.samples::<i16>().map(|s| s.unwrap()).collect();
    assert_eq!(read_samples.len(), 22050 * 2);

    let reloaded: Vec<u32> = read_samples.iter().map(|&s| (s as f32 / 32767.0).to_bits()).collect();
    let mismatched = engine.add_track("reload".to_string(), 44100, 2, reloaded);
    assert_eq!(mismatched, None);
    let info = engine.get_track_info();
    assert_eq!(info[1].3, 22050);
    assert_eq!(info[1].1, 44100);
    assert_eq!(info[1].2, 2);

    // the quantized samples survive the trip exactly
    for (n, &s) in read_samples.iter().enumerate() {
        assert_eq!(s, quantize(mix[n]));
    }
}

#[test]
fn playback_mix_is_mono_for_mono_stores() {
    let mut engine = AudioEngine::new();
    engine.add_track("a".to_string(), 44100, 1, vec![0.25f32.to_bits(); 100]);
    engine.add_track("b".to_string(), 44100, 1, vec![0.5f32.to_bits(); 100]);
    let start = TimePos { num: 0, den: 1 };
    let end = TimePos { num: 100, den: 44100 };
    let (mix, rate, channels) = fold_playback_mix(&engine, &start, &end);
    assert_eq!(rate, 44100);
    assert_eq!(channels, 1);
    assert_eq!(mix.len(), 100);
    // equal-weight sum of the two tracks
    assert!(mix.iter().all(|&v| v == 0.75));
}

#[test]
fn playback_mix_clamps_the_sum() {
    let mut engine = AudioEngine::new();
    engine.add_track("a".to_string(), 44100, 1, vec![0.8f32.to_bits(); 50]);
    engine.add_track("b".to_string(), 44100, 1, vec![0.8f32.to_bits(); 50]);
    let start = TimePos { num: 0, den: 1 };
    let end = TimePos { num: 50, den: 44100 };
    let (mix, _, _) = fold_playback_mix(&engine, &start, &end);
    assert!(mix.iter().all(|&v| v == 1.0));
}
