//! Playback transport state machine.
//!
//! One playback object drives one output stream. The audio device callback and
//! the engine share a single state record; the callback pulls samples from an
//! interleaved buffer and advances a sample position, while the engine issues
//! transport commands. Here the state is modelled over the buffer's length
//! alone: the caller keeps the sample data itself beside this record and keeps
//! `buffer_len` equal to its length.

use vstd::prelude::*;

verus! {

/// Shared playback state: sample position and transport flags over a buffer
/// of `buffer_len` interleaved samples.
#[derive(Clone, Copy, Debug, PartialEq, Eq, Structural)]
pub struct PlaybackState {
    /// Number of samples (not frames) in the current playback buffer.
    pub buffer_len: usize,
    /// Sample index of the next sample the callback will emit.
    pub position: usize,
    /// True while the callback is consuming samples.
    pub is_playing: bool,
    /// True after a pause; position and buffer are retained.
    pub is_paused: bool,
}

impl PlaybackState {
    /// Transport invariant: the position never passes the end of the buffer,
    /// and playing and paused are never both set.
    pub open spec fn wf(self) -> bool {
        self.position <= self.buffer_len && !(self.is_playing && self.is_paused)
    }
}

/// State after submitting a fresh buffer of `buffer_len` samples.
pub open spec fn spec_play(buffer_len: usize) -> PlaybackState {
    PlaybackState { buffer_len, position: 0, is_playing: true, is_paused: false }
}

/// State after a pause request.
pub open spec fn spec_pause(s: PlaybackState) -> PlaybackState {
    if s.is_playing {
        PlaybackState { is_playing: false, is_paused: true, ..s }
    } else {
        s
    }
}

/// State after a resume request.
pub open spec fn spec_resume(s: PlaybackState) -> PlaybackState {
    if s.is_paused && s.buffer_len > 0 {
        PlaybackState { is_playing: true, is_paused: false, ..s }
    } else {
        s
    }
}

/// State after a stop request.
pub open spec fn spec_stop(s: PlaybackState) -> PlaybackState {
    PlaybackState { is_playing: false, is_paused: false, position: 0, ..s }
}

/// State after a seek to sample index `sample_position` (clamped to the end).
pub open spec fn spec_set_position(s: PlaybackState, sample_position: usize) -> PlaybackState {
    PlaybackState {
        position: if sample_position <= s.buffer_len { sample_position } else { s.buffer_len },
        ..s
    }
}

/// Number of samples the callback copies out of the buffer when asked to fill
/// a block of `out_len` samples from state `s`.
pub open spec fn spec_advance_copied(s: PlaybackState, out_len: usize) -> usize {
    if s.is_playing {
        if out_len <= s.buffer_len - s.position {
            out_len
        } else {
            (s.buffer_len - s.position) as usize
        }
    } else {
        0
    }
}

/// State after the callback fills a block of `out_len` samples: the position
/// advances by the copied count, and if any output sample had to be zeroed
/// while the position sits at the end of the buffer, playing falls to false
/// (natural end of the buffer).
pub open spec fn spec_advance(s: PlaybackState, out_len: usize) -> PlaybackState {
    let copied = spec_advance_copied(s, out_len);
    let pos = (s.position + copied) as usize;
    PlaybackState {
        position: pos,
        is_playing: if copied < out_len && pos >= s.buffer_len { false } else { s.is_playing },
        ..s
    }
}

/// Playback manager for one output stream, opened at a fixed sample rate and
/// channel count. The device callback advances `state`; transport commands
/// rewrite its flags.
pub struct AudioPlayback {
    /// Shared transport state.
    pub state: PlaybackState,
    /// Sample rate the stream was opened with.
    pub sample_rate: u32,
    /// Channel count the stream was opened with.
    pub channels: usize,
}

impl AudioPlayback {
    /// Well-formed playback object: a valid stream configuration and a valid
    /// transport state.
    pub open spec fn wf(self) -> bool {
        self.state.wf() && self.channels >= 1 && self.sample_rate >= 1
    }

    /// Create a playback object for a stream at `sample_rate` and `channels`,
    /// idle and with an empty buffer.
    pub fn new(sample_rate: u32, channels: usize) -> (r: AudioPlayback)
        requires
            sample_rate >= 1,
            channels >= 1,
        ensures
            r.wf(),
            r.sample_rate == sample_rate,
            r.channels == channels,
            r.state == (PlaybackState {
                buffer_len: 0,
                position: 0,
                is_playing: false,
                is_paused: false,
            }),
    {
        AudioPlayback {
            state: PlaybackState {
                buffer_len: 0,
                position: 0,
                is_playing: false,
                is_paused: false,
            },
            sample_rate,
            channels,
        }
    }

    /// Start playback of a fresh buffer of `buffer_len` samples: the position
    /// resets to zero and the state becomes playing, in one step.
    pub fn play(&mut self, buffer_len: usize)
        requires
            old(self).wf(),
        ensures
            final(self).wf(),
            final(self).state == spec_play(buffer_len),
            final(self).sample_rate == old(self).sample_rate,
            final(self).channels == old(self).channels,
    {
        self.state = PlaybackState {
            buffer_len,
            position: 0,
            is_playing: true,
            is_paused: false,
        };
    }

    /// Resume a paused playback from the retained position; does nothing when
    /// not paused or when the buffer is empty.
    pub fn resume(&mut self)
        requires
            old(self).wf(),
        ensures
            final(self).wf(),
            final(self).state == spec_resume(old(self).state),
            final(self).sample_rate == old(self).sample_rate,
            final(self).channels == old(self).channels,
    {
        if self.state.is_paused && self.state.buffer_len > 0 {
            self.state.is_playing = true;
            self.state.is_paused = false;
        }
    }

    /// Pause playback, retaining the buffer and position; does nothing when
    /// not playing.
    pub fn pause(&mut self)
        requires
            old(self).wf(),
        ensures
            final(self).wf(),
            final(self).state == spec_pause(old(self).state),
            final(self).state.position == old(self).state.position,
            final(self).sample_rate == old(self).sample_rate,
            final(self).channels == old(self).channels,
    {
        if self.state.is_playing {
            self.state.is_playing = false;
            self.state.is_paused = true;
        }
    }

    /// Stop playback and reset the position to the start of the buffer.
    pub fn stop(&mut self)
        requires
            old(self).wf(),
        ensures
            final(self).wf(),
            final(self).state == spec_stop(old(self).state),
            final(self).sample_rate == old(self).sample_rate,
            final(self).channels == old(self).channels,
    {
        self.state.is_playing = false;
        self.state.is_paused = false;
        self.state.position = 0;
    }

    /// True while the callback is consuming samples.
    pub fn is_playing(&self) -> (r: bool)
        ensures
            r == self.state.is_playing,
    {
        self.state.is_playing
    }

    /// True after a pause and before the next play, resume or stop.
    pub fn is_paused(&self) -> (r: bool)
        ensures
            r == self.state.is_paused,
    {
        self.state.is_paused
    }

    /// Current playback position as a frame index into the buffer; the caller
    /// turns it into seconds with the stream's sample rate and range offset.
    pub fn get_position(&self) -> (r: usize)
        requires
            self.wf(),
        ensures
            r == self.state.position / self.channels,
    {
        self.state.position / self.channels
    }

    /// Seek to sample index `sample_position`, clamped to the buffer's end;
    /// the transport flags are untouched.
    pub fn set_position(&mut self, sample_position: usize)
        requires
            old(self).wf(),
        ensures
            final(self).wf(),
            final(self).state == spec_set_position(old(self).state, sample_position),
            final(self).sample_rate == old(self).sample_rate,
            final(self).channels == old(self).channels,
    {
        let limit = self.state.buffer_len;
        self.state.position = if sample_position <= limit { sample_position } else { limit };
    }

    /// One device callback block: report how many samples the callback copies
    /// out of the buffer for a block of `out_len` output samples, and advance
    /// the state. The copied samples are `buffer[position .. position + r]` of
    /// the caller's sample buffer; the remaining `out_len - r` output samples
    /// are zeroed. When the buffer runs out inside the block, playing falls to
    /// false.
    pub fn advance(&mut self, out_len: usize) -> (r: usize)
        requires
            old(self).wf(),
        ensures
            final(self).wf(),
            r == spec_advance_copied(old(self).state, out_len),
            final(self).state == spec_advance(old(self).state, out_len),
            final(self).sample_rate == old(self).sample_rate,
            final(self).channels == old(self).channels,
    {
        let copied: usize = if self.state.is_playing {
            let remaining = self.state.buffer_len - self.state.position;
            if out_len <= remaining { out_len } else { remaining }
        } else {
            0
        };
        self.state.position = self.state.position + copied;
        if copied < out_len && self.state.position >= self.state.buffer_len {
            self.state.is_playing = false;
        }
        copied
    }
}

/// Every transport operation keeps the shared state well-formed: the position
/// never passes the buffer's end, and the playing and paused flags are never
/// both set.
pub proof fn lemma_transport_invariant(s: PlaybackState, buffer_len: usize, sample_position: usize, out_len: usize)
    requires
        s.wf(),
    ensures
        spec_play(buffer_len).wf(),
        spec_pause(s).wf(),
        spec_resume(s).wf(),
        spec_stop(s).wf(),
        spec_set_position(s, sample_position).wf(),
        spec_advance(s, out_len).wf(),
{
}

/// Pausing playback and then resuming it returns to playing at exactly the
/// position where the pause happened.
pub proof fn lemma_pause_resume_preserves_position(s: PlaybackState)
    requires
        s.wf(),
        s.is_playing,
        s.buffer_len > 0,
    ensures
        spec_resume(spec_pause(s)).is_playing,
        spec_resume(spec_pause(s)).position == s.position,
        spec_resume(spec_pause(s)).buffer_len == s.buffer_len,
{
}

/// A play request resumes the paused stream, rather than mixing a new range,
/// exactly when neither a start nor an end time was given and the transport
/// is paused.
pub fn play_request_resumes(have_start: bool, have_end: bool, is_paused: bool) -> (r: bool)
    ensures
        r <==> (!have_start && !have_end && is_paused),
{
    !have_start && !have_end && is_paused
}

/// The engine rebuilds its output stream exactly when no stream is open yet or
/// the open stream's sample rate differs from the requested mix rate.
pub fn needs_stream_rebuild(current_rate: Option<u32>, new_rate: u32) -> (r: bool)
    ensures
        r <==> current_rate != Some(new_rate),
{
    match current_rate {
        None => true,
        Some(rate) => rate != new_rate,
    }
}

} // verus!
