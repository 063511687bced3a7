//! Playback transport tests: the state machine's invariants and the
//! pause/resume and stream-rebuild behaviours.

use soundly::transport::{AudioPlayback, needs_stream_rebuild, play_request_resumes};

#[test]
fn play_resets_position_and_flags() {
    let mut p = AudioPlayback::new(44100, 2);
    assert!(!p.is_playing());
    assert!(!p.is_paused());
    p.play(88200);
    assert!(p.is_playing());
    assert!(!p.is_paused());
    assert_eq!(p.get_position(), 0);
}

#[test]
fn pause_then_resume_preserves_position() {
    let mut p = AudioPlayback::new(44100, 2);
    p.play(88200);
    let copied = p.advance(2000);
    assert_eq!(copied, 2000);
    assert_eq!(p.get_position(), 1000);

    p.pause();
    assert!(!p.is_playing());
    assert!(p.is_paused());
    assert_eq!(p.get_position(), 1000);

    // a paused transport feeds zeros and does not move
    let copied = p.advance(512);
    assert_eq!(copied, 0);
    assert_eq!(p.get_position(), 1000);

    p.resume();
    assert!(p.is_playing());
    assert!(!p.is_paused());
    assert_eq!(p.get_position(), 1000);
}

#[test]
fn playing_and_paused_never_both() {
    let mut p = AudioPlayback::new(48000, 1);
    p.play(100);
    assert!(!(p.is_playing() && p.is_paused()));
    p.pause();
    assert!(!(p.is_playing() && p.is_paused()));
    p.resume();
    assert!(!(p.is_playing() && p.is_paused()));
    p.stop();
    assert!(!(p.is_playing() && p.is_paused()));
    assert_eq!(p.get_position(), 0);
}

#[test]
fn natural_end_flips_playing_inside_the_callback() {
    let mut p = AudioPlayback::new(44100, 1);
    p.play(100);
    // the buffer runs out inside this block: the rest is zeroed and the
    // transport falls idle
    let copied = p.advance(128);
    assert_eq!(copied, 100);
    assert!(!p.is_playing());
    assert!(!p.is_paused());
    assert_eq!(p.get_position(), 100);
}

#[test]
fn exact_fill_flips_playing_one_block_late() {
    let mut p = AudioPlayback::new(44100, 1);
    p.play(128);
    let copied = p.advance(128);
    assert_eq!(copied, 128);
    // the flag falls only when a callback has to write a zero
    assert!(p.is_playing());
    let copied = p.advance(128);
    assert_eq!(copied, 0);
    assert!(!p.is_playing());
}

#[test]
fn set_position_clamps_to_buffer_end() {
    let mut p = AudioPlayback::new(44100, 2);
    p.play(1000);
    p.set_position(400);
    assert_eq!(p.get_position(), 200);
    p.set_position(5000);
    assert_eq!(p.get_position(), 500);
    // seeking does not change the flags
    assert!(p.is_playing());
}

#[test]
fn resume_does_nothing_when_not_paused() {
    let mut p = AudioPlayback::new(44100, 2);
    p.play(100);
    p.resume();
    assert!(p.is_playing());
    p.stop();
    p.resume();
    assert!(!p.is_playing());
    assert!(!p.is_paused());
}

#[test]
fn stream_rebuild_exactly_on_rate_change() {
    assert!(needs_stream_rebuild(None, 44100));
    assert!(needs_stream_rebuild(Some(44100), 48000));
    assert!(!needs_stream_rebuild(Some(44100), 44100));
}

#[test]
fn play_resumes_only_without_times_while_paused() {
    assert!(play_request_resumes(false, false, true));
    assert!(!play_request_resumes(true, false, true));
    assert!(!play_request_resumes(false, true, true));
    assert!(!play_request_resumes(false, false, false));
}

#[test]
fn position_increases_monotonically_while_playing() {
    let mut p = AudioPlayback::new(44100, 2);
    // nine seconds of stereo samples, as after a one-second region delete
    p.play(9 * 44100 * 2);
    let mut last = p.get_position();
    assert_eq!(last, 0);
    for _ in 0..20 {
        p.advance(441 * 2);
        let now = p.get_position();
        assert!(now > last);
        last = now;
    }
    // twenty blocks of ten milliseconds land within the first second
    assert!(last > 0 && last < 44100);
    assert!(p.is_playing());
}
