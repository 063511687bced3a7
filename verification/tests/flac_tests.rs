//! FLAC encoder tests: stream sanity, length gating, CRC coverage, and
//! round trips through an independent decoder.

use soundly::flac::encode_flac_with_level;
use soundly::crc::{crc8, crc16};
use soundly::FlacError;

/// Quantize one float sample to 16 bits the way the exporters do.
fn quantize(x: f32) -> i16 {
    (x * 32767.0).clamp(-32768.0, 32767.0) as i16
}

/// Decode a FLAC stream with an independent decoder; returns the stream's
/// sample rate, channel count and interleaved samples.
fn decode_flac(bytes: Vec<u8>) -> (u32, usize, Vec<i16>) {
    let mss = symphonia::core::io::MediaSourceStream::new(
        Box::new(std::io::Cursor::new(bytes)),
        Default::default(),
    );
    let mut hint = symphonia::core::formats::probe::Hint::new();
    hint.with_extension("flac");
    let mut format = symphonia::default::get_probe()
        .probe(&hint, mss, Default::default(), Default::default())
        .expect("probe failed");

    let track = format
        .default_track(symphonia::core::formats::TrackType::Audio)
        .expect("no audio track")
        .clone();
    let params = match track.codec_params.as_ref().expect("no codec params") {
        symphonia::core::codecs::CodecParameters::Audio(p) => p.clone(),
        _ => panic!("not an audio track"),
    };
    let sample_rate = params.sample_rate.expect("no rate");
    let channels = params.channels.as_ref().expect("no channels").count();

    let mut decoder = symphonia::default::get_codecs()
        .make_audio_decoder(
            &params,
            &symphonia::core::codecs::audio::AudioDecoderOptions::default(),
        )
        .expect("decoder");

    let mut samples: Vec<i16> = Vec::new();
    while let Some(packet) = format.next_packet().expect("packet") {
        let buf = decoder.decode(&packet).expect("decode");
        let mut chunk: Vec<i16> = Vec::new();
        buf.copy_to_vec_interleaved(&mut chunk);
        samples.extend_from_slice(&chunk);
    }
    (sample_rate, channels, samples)
}

#[test]
fn flac_stream_starts_with_magic_and_streaminfo() {
    // one second of stereo silence at the default level
    let samples = vec![0i16; 44100 * 2];
    let bytes = encode_flac_with_level(&samples, 44100, 2, 5).unwrap();

    assert_eq!(&bytes[0..4], b"fLaC");
    // last-metadata-block flag set, block type zero, length 34
    assert_eq!(bytes[4], 0x80);
    assert_eq!(&bytes[5..8], &[0, 0, 34]);

    // block sizes are both 4096 at level 5
    let min_bs = u16::from_be_bytes([bytes[8], bytes[9]]);
    let max_bs = u16::from_be_bytes([bytes[10], bytes[11]]);
    assert_eq!(min_bs, 4096);
    assert_eq!(max_bs, 4096);

    // sample rate (20 bits), channels - 1 (3 bits), bits per sample - 1
    // (5 bits), total samples (36 bits)
    let rate = ((bytes[18] as u32) << 12) | ((bytes[19] as u32) << 4) | ((bytes[20] as u32) >> 4);
    assert_eq!(rate, 44100);
    let channels = ((bytes[20] >> 1) & 0x7) + 1;
    assert_eq!(channels, 2);
    let bps = (((bytes[20] & 1) << 4) | (bytes[21] >> 4)) + 1;
    assert_eq!(bps, 16);
    let total = (((bytes[21] & 0xF) as u64) << 32)
        | ((bytes[22] as u64) << 24)
        | ((bytes[23] as u64) << 16)
        | ((bytes[24] as u64) << 8)
        | (bytes[25] as u64);
    assert_eq!(total, 44100);

    // MD5 of 44100 * 2 * 2 zero bytes
    let expected_md5: [u8; 16] = [
        0xd2, 0xb1, 0x20, 0x19, 0x90, 0x19, 0xb6, 0x39, 0xd5, 0xa7, 0xe2, 0xb3, 0x46, 0x3e, 0x9c,
        0x97,
    ];
    assert_eq!(&bytes[26..42], &expected_md5);
}

#[test]
fn flac_minimum_length_boundary() {
    // exactly 16 frames per channel succeeds
    let ok_samples = vec![0i16; 16 * 2];
    assert!(encode_flac_with_level(&ok_samples, 44100, 2, 5).is_ok());

    // 15 frames per channel is too short
    let short_samples = vec![0i16; 15 * 2];
    assert_eq!(encode_flac_with_level(&short_samples, 44100, 2, 5), Err(FlacError::TooShort));
}

#[test]
fn flac_rejects_compression_level_above_eight() {
    let samples = vec![0i16; 44100];
    assert_eq!(encode_flac_with_level(&samples, 44100, 1, 9), Err(FlacError::InvalidConfig));
    // length gating comes first
    let short = vec![0i16; 4];
    assert_eq!(encode_flac_with_level(&short, 44100, 1, 9), Err(FlacError::TooShort));
}

#[test]
fn flac_frame_crcs_reproduce_embedded_values() {
    // a single-frame stream: 4096 mono frames fill exactly one block
    let samples: Vec<i16> = (0..4096).map(|i| ((i * 7) % 251) as i16 - 125).collect();
    let bytes = encode_flac_with_level(&samples, 44100, 1, 5).unwrap();

    // the frame starts right after the 42-byte preamble; its header here is
    // four fixed bytes plus the one-byte frame number, then its CRC-8
    let frame_start = 42;
    let header_end = frame_start + 5;
    assert_eq!(crc8(&bytes[frame_start..header_end]), bytes[header_end]);

    // the CRC-16 footer covers every frame byte before it
    let crc_lo = bytes[bytes.len() - 1];
    let crc_hi = bytes[bytes.len() - 2];
    let embedded = u16::from_be_bytes([crc_hi, crc_lo]);
    assert_eq!(crc16(&bytes[frame_start..bytes.len() - 2]), embedded);
}

#[test]
fn flac_silence_round_trips_at_every_level() {
    for level in 0..=8u8 {
        let samples = vec![0i16; 1000 * 2];
        let bytes = encode_flac_with_level(&samples, 44100, 2, level).unwrap();
        let (rate, channels, decoded) = decode_flac(bytes);
        assert_eq!(rate, 44100);
        assert_eq!(channels, 2);
        assert_eq!(decoded, samples, "level {level}");
    }
}

#[test]
fn flac_sine_round_trips_exactly() {
    // a one-second 1 kHz stereo sine at the default level
    let mut samples: Vec<i16> = Vec::with_capacity(44100 * 2);
    for n in 0..44100 {
        let t = n as f32 / 44100.0;
        let v = quantize((2.0 * std::f32::consts::PI * 1000.0 * t).sin());
        samples.push(v);
        samples.push(v);
    }
    let bytes = encode_flac_with_level(&samples, 44100, 2, 5).unwrap();
    let (rate, channels, decoded) = decode_flac(bytes);
    assert_eq!(rate, 44100);
    assert_eq!(channels, 2);
    assert_eq!(decoded, samples);
}

#[test]
fn flac_mono_and_uncommon_rate_round_trip() {
    let samples: Vec<i16> = (0..5000).map(|i| ((i * 13) % 1024) as i16 - 512).collect();
    let bytes = encode_flac_with_level(&samples, 11025, 1, 3).unwrap();
    let (rate, channels, decoded) = decode_flac(bytes);
    assert_eq!(rate, 11025);
    assert_eq!(channels, 1);
    assert_eq!(decoded, samples);
}
