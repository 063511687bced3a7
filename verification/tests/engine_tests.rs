//! Track store tests: loading, rate mismatch reporting, region deletion and
//! the store's snapshot getters.

use soundly::engine::{AudioEngine, TimePos};
use soundly::engine::frames_of_time;
use soundly::{engine_error_of_flac, EngineError, FlacError};

fn seconds(n: u64) -> TimePos {
    TimePos { num: n, den: 1 }
}

fn bits_of(samples: &[f32]) -> Vec<u32> {
    samples.iter().map(|s| s.to_bits()).collect()
}

#[test]
fn load_reports_rate_mismatch_and_keeps_both_tracks() {
    let mut engine = AudioEngine::new();
    let first = engine.add_track("a.wav".to_string(), 44100, 2, vec![0u32; 44100 * 2]);
    assert_eq!(first, None);
    assert_eq!(engine.get_sample_rate(), 44100);

    // a second track at another rate still loads, and the reference rate is
    // reported back
    let second = engine.add_track("other_48k.wav".to_string(), 48000, 2, vec![0u32; 4800]);
    assert_eq!(second, Some(44100));
    assert_eq!(engine.get_track_count(), 2);
    assert_eq!(engine.get_sample_rate(), 44100);

    let info = engine.get_track_info();
    assert_eq!(info.len(), 2);
    assert_eq!(info[0].1, 44100);
    assert_eq!(info[1].1, 48000);
    assert_eq!(info[1].3, 2400);
    assert_eq!(info[1].0, "other_48k.wav");
}

#[test]
fn getters_have_documented_defaults() {
    let engine = AudioEngine::new();
    assert_eq!(engine.get_sample_rate(), 44100);
    assert_eq!(engine.get_channels(), 2);
    assert_eq!(engine.get_track_count(), 0);
    let d = engine.get_duration();
    assert_eq!((d.num, d.den), (0, 1));
}

#[test]
fn channels_is_the_maximum_over_tracks() {
    let mut engine = AudioEngine::new();
    engine.add_track("m".to_string(), 44100, 1, vec![0u32; 10]);
    assert_eq!(engine.get_channels(), 1);
    engine.add_track("s".to_string(), 44100, 2, vec![0u32; 10]);
    assert_eq!(engine.get_channels(), 2);
}

#[test]
fn duration_is_the_longest_track() {
    let mut engine = AudioEngine::new();
    engine.add_track("a".to_string(), 44100, 1, vec![0u32; 44100]);
    engine.add_track("b".to_string(), 48000, 1, vec![0u32; 96000]);
    let d = engine.get_duration();
    // two seconds: 96000 frames at 48 kHz
    assert_eq!((d.num, d.den), (96000, 48000));
}

#[test]
fn delete_region_removes_whole_frames() {
    let mut engine = AudioEngine::new();
    // a 10-second stereo track at 44.1 kHz
    engine.add_track("t".to_string(), 44100, 2, vec![0x3F80_0000u32; 441000 * 2]);
    let r = engine.delete_region(&seconds(2), &seconds(3), &[0]);
    assert!(r.is_ok());
    let info = engine.get_track_info();
    // one second gone: nine seconds of frames remain
    assert_eq!(info[0].3, 396900);
    assert_eq!(engine.tracks[0].audio_data.len() % engine.tracks[0].channels, 0);
}

#[test]
fn delete_region_keeps_the_right_samples() {
    let mut engine = AudioEngine::new();
    let data: Vec<u32> = (0..10u32).collect();
    engine.add_track("t".to_string(), 1, 1, data);
    // delete frames [2, 5) of a 1 Hz mono track
    let r = engine.delete_region(&seconds(2), &seconds(5), &[0]);
    assert!(r.is_ok());
    assert_eq!(engine.tracks[0].audio_data, vec![0, 1, 5, 6, 7, 8, 9]);
}

#[test]
fn delete_region_edits_tracks_independently() {
    let mut engine = AudioEngine::new();
    // a long and a short track; the region lies past the short one's end
    engine.add_track("long".to_string(), 44100, 1, vec![0u32; 44100 * 5]);
    engine.add_track("short".to_string(), 44100, 1, vec![0u32; 44100]);
    let r = engine.delete_region(&seconds(2), &seconds(3), &[0, 1]);
    assert!(r.is_ok());
    let info = engine.get_track_info();
    assert_eq!(info[0].3, 44100 * 4);
    // the short track is untouched
    assert_eq!(info[1].3, 44100);
}

#[test]
fn delete_region_reports_out_of_bounds_when_nothing_was_edited() {
    let mut engine = AudioEngine::new();
    engine.add_track("short".to_string(), 44100, 1, vec![0u32; 100]);
    let r = engine.delete_region(&seconds(5), &seconds(6), &[0]);
    assert_eq!(r, Err(EngineError::OutOfBounds));
    // an invalid index alone is also out of bounds
    let r = engine.delete_region(&TimePos { num: 0, den: 1 }, &seconds(1), &[7]);
    assert_eq!(r, Err(EngineError::OutOfBounds));
    // an empty index list is fine
    assert!(engine.delete_region(&seconds(0), &seconds(1), &[]).is_ok());
}

#[test]
fn clear_tracks_empties_the_store() {
    let mut engine = AudioEngine::new();
    engine.add_track("t".to_string(), 44100, 1, bits_of(&[0.5, -0.5]));
    engine.clear_tracks();
    assert_eq!(engine.get_track_count(), 0);
}

#[test]
fn flac_errors_map_to_engine_errors() {
    assert_eq!(engine_error_of_flac(FlacError::TooShort), EngineError::TooShort);
    assert_eq!(engine_error_of_flac(FlacError::InvalidConfig), EngineError::InvalidConfig);
}

#[test]
fn frames_of_time_is_the_exact_floor() {
    // 0.3 seconds at 44.1 kHz: floor(3 * 44100 / 10)
    assert_eq!(frames_of_time(&TimePos { num: 3, den: 10 }, 44100), 13230);
    // a boundary that does not divide evenly
    assert_eq!(frames_of_time(&TimePos { num: 1, den: 3 }, 44100), 14700);
    assert_eq!(frames_of_time(&TimePos { num: 2, den: 3 }, 44100), 29400);
    assert_eq!(frames_of_time(&TimePos { num: 1, den: 7 }, 44100), 6300);
    assert_eq!(frames_of_time(&TimePos { num: 100, den: 44100 }, 44100), 100);
}
